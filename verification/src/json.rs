//! Content as JSON documents.
//!
//! The store keeps content as bytes. This module turns a JSON document into
//! the bytes of its text and back, with `serde_json`, and writes a whole
//! entry as JSON text.

use vstd::prelude::*;
use vstd::string::*;
use vstd::utf8::encode_utf8;
use crate::entry::{CachedContent, EntryView};
use crate::error::{EncodingError, StoreError};
use crate::record::RecordView;
use crate::store::{CachingContentStore, Step, StepView, refused, store_start};
use crate::tag::{
    ascii_text, check_tag_bytes, lemma_ascii_text, lemma_bytes_defect, string_from_utf8, valid_tag,
};
use crate::time::{NANOS_PER_SEC, TimeSpan};
use vstd::pervasive::unreached;

verus! {

/// A JSON document of `serde_json`. Nothing of its inside is known here.
#[verifier::external_type_specification]
#[verifier::external_body]
pub struct ExJsonValue(serde_json::Value);

/// The error of `serde_json`. Nothing of its inside is known here.
#[verifier::external_type_specification]
#[verifier::external_body]
pub struct ExJsonError(serde_json::Error);

/// The JSON text that `serde_json::to_string` writes for a document, or
/// `None` where it writes none.
pub uninterp spec fn value_text(value: serde_json::Value) -> Option<Seq<char>>;

/// The text of a JSON document, or why there is none.
///
/// Calls `serde_json::to_string`. Trusted: what it returns depends on the
/// document alone, the text as well as whether there is one. Nothing is
/// claimed of the error.
#[verifier::external_body]
fn json_text(value: &serde_json::Value) -> (r: Result<String, serde_json::Error>)
    ensures
        r matches Ok(text) ==> value_text(*value) == Some(text@),
        r is Err ==> value_text(*value) is None,
{
    serde_json::to_string(value)
}

/// The JSON document that `serde_json::from_slice` reads from the bytes, or
/// `None` where it reads none: the bytes must be the text of one document,
/// with nothing but white space around it.
pub uninterp spec fn json_value(bytes: Seq<u8>) -> Option<serde_json::Value>;

/// The JSON document that the bytes are the text of, or why they are none.
///
/// Calls `serde_json::from_slice`. Trusted: what it returns depends on the
/// bytes alone, the document as well as whether there is one. Nothing is
/// claimed of the error.
#[verifier::external_body]
fn json_document(bytes: &[u8]) -> (r: Result<serde_json::Value, serde_json::Error>)
    ensures
        r matches Ok(document) ==> json_value(bytes@) == Some(document),
        r is Err ==> json_value(bytes@) is None,
{
    serde_json::from_slice(bytes)
}

/// What the error says, for people to read.
///
/// Calls `to_string` on a `serde_json::Error`, which writes its `Display`
/// form. Nothing is claimed of the text.
#[verifier::external_body]
fn json_error_text(e: &serde_json::Error) -> (r: String) {
    e.to_string()
}

/// The failure of the store's own kind that stands for a failure of the
/// JSON encoder.
pub fn payload_error(e: serde_json::Error) -> (r: EncodingError)
    ensures
        r matches EncodingError::Payload(_),
{
    EncodingError::Payload(json_error_text(&e))
}

/// What is made of the encoder's answer when content is to be stored: the
/// bytes of the text, or the failure.
pub fn content_bytes(text: Result<String, serde_json::Error>) -> (r: Result<
    Vec<u8>,
    EncodingError,
>)
    ensures
        match (text, r) {
            (Ok(text), Ok(bytes)) => bytes@ == encode_utf8(text@),
            (Err(_), Err(e)) => e matches EncodingError::Payload(_),
            _ => false,
        },
{
    match text {
        Ok(text) => Ok(text.as_str().as_bytes_vec()),
        Err(e) => Err(payload_error(e)),
    }
}

/// The bytes under which a JSON document is stored: its text in UTF-8.
/// Where the encoder has no text for the document, the failure is a
/// `Payload` error.
pub fn encode_content(value: &serde_json::Value) -> (r: Result<Vec<u8>, EncodingError>)
    ensures
        match r {
            Ok(bytes) => value_text(*value) matches Some(text) && bytes@ == encode_utf8(text),
            Err(e) => value_text(*value) is None && e matches EncodingError::Payload(_),
        },
{
    content_bytes(json_text(value))
}

/// What is made of the decoder's answer when content was found: the
/// document as the decoder gave it, or the failure.
pub fn parsed_content(parsed: Result<serde_json::Value, serde_json::Error>) -> (r: Result<
    serde_json::Value,
    EncodingError,
>)
    ensures
        match (parsed, r) {
            (Ok(document), Ok(value)) => value == document,
            (Err(_), Err(e)) => e matches EncodingError::Payload(_),
            _ => false,
        },
{
    match parsed {
        Ok(document) => Ok(document),
        Err(e) => Err(payload_error(e)),
    }
}

/// The JSON document stored as the given bytes. Where the bytes are not
/// the text of one, the failure is a `Payload` error.
pub fn decode_content(bytes: &[u8]) -> (r: Result<serde_json::Value, EncodingError>)
    ensures
        match r {
            Ok(document) => json_value(bytes@) == Some(document),
            Err(e) => json_value(bytes@) is None && e matches EncodingError::Payload(_),
        },
{
    parsed_content(json_document(bytes))
}

/// A number in decimal digits, without leading zeros.
pub open spec fn decimal(n: nat) -> Seq<u8>
    decreases n,
{
    if n < 10 {
        seq![(0x30 + n) as u8]
    } else {
        decimal(n / 10).push((0x30 + n % 10) as u8)
    }
}

/// A span as JSON: its whole seconds and the nanoseconds beyond them.
pub open spec fn span_json(t: nat) -> Seq<char> {
    "{\"secs\":"@ + ascii_text(decimal(t / (NANOS_PER_SEC as nat))) + ",\"nanos\":"@ + ascii_text(
        decimal(t % (NANOS_PER_SEC as nat)),
    ) + "}"@
}

/// The expiry time of an entry as JSON: `null` where it never expires.
pub open spec fn expiry_json(expires_at: Option<nat>) -> Seq<char> {
    match expires_at {
        Some(at) => span_json(at),
        None => "null"@,
    }
}

/// An entry as JSON, around the JSON text of its content.
pub open spec fn entry_json(entry: EntryView<Seq<char>>) -> Seq<char> {
    "{\"update_time\":"@ + span_json(entry.update_time) + ",\"expires_at\":"@ + expiry_json(
        entry.expires_at,
    ) + ",\"content\":"@ + entry.content + "}"@
}

/// Decimal digits are ASCII.
proof fn lemma_decimal_ascii(n: nat)
    ensures
        forall|i: int| 0 <= i < decimal(n).len() ==> #[trigger] decimal(n)[i] < 128,
    decreases n,
{
    if n >= 10 {
        lemma_decimal_ascii(n / 10);
        let front = decimal(n / 10);
        assert forall|i: int| 0 <= i < decimal(n).len() implies #[trigger] decimal(n)[i] < 128 by {
            if i < front.len() {
                assert(decimal(n)[i] == front[i]);
            }
        }
    }
}

fn push_decimal(out: &mut Vec<u8>, n: u128)
    ensures
        final(out)@ == old(out)@ + decimal(n as nat),
    decreases n,
{
    if n < 10 {
        out.push(0x30 + n as u8);
        assert(out@ =~= old(out)@ + decimal(n as nat));
    } else {
        push_decimal(out, n / 10);
        out.push(0x30 + (n % 10) as u8);
        assert(out@ =~= old(out)@ + decimal(n as nat));
    }
}

fn append_decimal(out: &mut String, n: u128)
    ensures
        final(out)@ == old(out)@ + ascii_text(decimal(n as nat)),
{
    let mut digits: Vec<u8> = Vec::new();
    push_decimal(&mut digits, n);
    proof {
        assert(digits@ =~= decimal(n as nat));
        lemma_decimal_ascii(n as nat);
        lemma_ascii_text(digits@);
    }
    match string_from_utf8(digits) {
        Some(text) => out.append(text.as_str()),
        None => unreached(),
    }
}

fn append_span(out: &mut String, span: TimeSpan)
    ensures
        final(out)@ == old(out)@ + span_json(span@),
{
    out.append("{\"secs\":");
    append_decimal(out, span.whole_secs());
    out.append(",\"nanos\":");
    append_decimal(out, span.subsec_nanos() as u128);
    out.append("}");
    assert(out@ =~= old(out)@ + span_json(span@));
}

/// Writes an entry as JSON around `content`, the JSON text of its content.
pub fn render_entry(update_time: TimeSpan, expires_at: Option<TimeSpan>, content: &str) -> (r:
    String)
    ensures
        r@ == entry_json(
            EntryView {
                update_time: update_time@,
                expires_at: crate::entry::span_nanos(expires_at),
                content: content@,
            },
        ),
{
    let mut out = String::from_str("{\"update_time\":");
    append_span(&mut out, update_time);
    out.append(",\"expires_at\":");
    match expires_at {
        Some(at) => append_span(&mut out, at),
        None => out.append("null"),
    }
    out.append(",\"content\":");
    out.append(content);
    out.append("}");
    assert(out@ =~= entry_json(
        EntryView {
            update_time: update_time@,
            expires_at: crate::entry::span_nanos(expires_at),
            content: content@,
        },
    ));
    out
}

impl CachedContent<serde_json::Value> {
    /// The entry as JSON text: its update time, its expiry time or `null`,
    /// and the text of its content. Where the encoder has no text for the
    /// content, the failure is a `Payload` error.
    pub fn as_json(&self) -> (r: Result<String, EncodingError>)
        ensures
            match r {
                Ok(text) => value_text(self@.content) matches Some(content) && text@
                    == entry_json(self@.with_content(content)),
                Err(e) => value_text(self@.content) is None && e matches EncodingError::Payload(_),
            },
    {
        match json_text(self.content()) {
            Ok(content) => {
                Ok(render_entry(self.update_time(), self.expires_at(), content.as_str()))
            },
            Err(e) => Err(payload_error(e)),
        }
    }
}

impl CachingContentStore {
    /// Starts to store an entry whose content is a JSON document. A tag
    /// that is refused ends the operation before the encoder is asked. Where
    /// the encoder has no text for the content, the operation ends with a
    /// `Payload` error before any request is made. Else it goes on as
    /// [`CachingContentStore::store`] does with the text in UTF-8.
    pub fn store_json(&self, tag: &str, entry: &CachedContent<serde_json::Value>) -> (r: Step)
        ensures
            !valid_tag(tag@) ==> r@ == refused(tag@),
            valid_tag(tag@) ==> match value_text(entry@.content) {
                Some(text) => {
                    &&& r@ == store_start(tag@, entry@.with_content(encode_utf8(text)))
                    &&& (RecordView {
                        tag: tag@,
                        entry: entry@.with_content(encode_utf8(text)),
                    }).wf()
                },
                None => r@ matches StepView::Finished(
                    Err(StoreError::Encoding(EncodingError::Payload(_))),
                ),
            },
    {
        proof {
            lemma_bytes_defect(tag@);
        }
        match check_tag_bytes(tag.as_bytes()) {
            Some(e) => Step::Finished(Err(StoreError::InvalidTag(e))),
            None => match encode_content(entry.content()) {
                Err(e) => Step::Finished(Err(StoreError::Encoding(e))),
                Ok(bytes) => {
                    let raw = CachedContent::from_parts(
                        entry.update_time(),
                        entry.expires_at(),
                        bytes,
                    );
                    self.store(tag, &raw)
                },
            },
        }
    }
}

} // verus!
