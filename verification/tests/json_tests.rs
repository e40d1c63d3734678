use caching_content_store::entry::CachedContent;
use caching_content_store::error::{EncodingError, InvalidTagError, StoreError};
use caching_content_store::json::{
    content_bytes, decode_content, encode_content, parsed_content, render_entry,
};
use caching_content_store::memory::MemoryDir;
use caching_content_store::store::{CachingContentStore, Outcome, Step};
use caching_content_store::time::TimeSpan;
use serde_json::{Number, Value};

fn document() -> Value {
    let mut object = serde_json::Map::new();
    object.insert("name".to_string(), Value::String("hi \"there\"".to_string()));
    object.insert("count".to_string(), Value::Number(Number::from(3u64)));
    object.insert("list".to_string(), Value::Array(vec![Value::Null, Value::Bool(true)]));
    Value::Object(object)
}

fn run(dir: &mut MemoryDir, first: Step, now: TimeSpan) -> Result<Outcome, StoreError> {
    let mut step = first;
    loop {
        match step {
            Step::Finished(result) => return result,
            Step::Perform { request, pending } => {
                let reply = dir.perform(&request);
                step = pending.resume(reply, now);
            }
        }
    }
}

#[test]
fn as_json_writes_times_and_content() {
    let entry = CachedContent::from_parts(
        TimeSpan::new(1, 2),
        None,
        Value::String("hi there".to_string()),
    );
    assert_eq!(
        entry.as_json(),
        Ok("{\"update_time\":{\"secs\":1,\"nanos\":2},\"expires_at\":null,\"content\":\"hi there\"}"
            .to_string())
    );
    let entry = CachedContent::from_parts(
        TimeSpan::new(1700000000, 123456789),
        Some(TimeSpan::from_secs(1700000100)),
        Value::Array(vec![Value::Number(Number::from(10u64)), Value::Null]),
    );
    assert_eq!(
        entry.as_json(),
        Ok("{\"update_time\":{\"secs\":1700000000,\"nanos\":123456789},\"expires_at\":{\"secs\":1700000100,\"nanos\":0},\"content\":[10,null]}"
            .to_string())
    );
}

#[test]
fn as_json_is_json_with_the_three_fields() {
    let entry = CachedContent::from_parts(TimeSpan::zero(), Some(TimeSpan::new(0, 7)), document());
    let parsed: Value = serde_json::from_str(&entry.as_json().unwrap()).unwrap();
    assert_eq!(parsed["update_time"]["secs"], Value::Number(Number::from(0u64)));
    assert_eq!(parsed["update_time"]["nanos"], Value::Number(Number::from(0u64)));
    assert_eq!(parsed["expires_at"]["nanos"], Value::Number(Number::from(7u64)));
    assert_eq!(parsed["content"], document());
}

#[test]
fn render_entry_writes_large_numbers_in_full() {
    let text = render_entry(TimeSpan::from_nanos(u128::MAX), None, "0");
    assert_eq!(
        text,
        "{\"update_time\":{\"secs\":340282366920938463463374607431,\"nanos\":768211455},\"expires_at\":null,\"content\":0}"
    );
}

#[test]
fn content_goes_to_bytes_and_back() {
    let bytes = encode_content(&document()).unwrap();
    assert_eq!(
        bytes,
        b"{\"count\":3,\"list\":[null,true],\"name\":\"hi \\\"there\\\"\"}".to_vec()
    );
    assert_eq!(decode_content(&bytes), Ok(document()));
    assert_eq!(encode_content(&Value::String("hi there".to_string())), Ok(b"\"hi there\"".to_vec()));
}

#[test]
fn bytes_that_are_no_json_are_a_payload_error() {
    assert!(matches!(decode_content(b"{"), Err(EncodingError::Payload(_))));
    assert!(matches!(decode_content(b""), Err(EncodingError::Payload(_))));
    assert!(matches!(decode_content(&[0xff]), Err(EncodingError::Payload(_))));
    match decode_content(b"[1,") {
        Err(EncodingError::Payload(reason)) => assert!(reason.contains("line 1")),
        other => panic!("decoding ended with {:?}", other),
    }
}

#[test]
fn the_answer_of_the_encoder_becomes_bytes_or_a_payload_error() {
    assert_eq!(content_bytes(Ok("[1]".to_string())), Ok(b"[1]".to_vec()));
    let failure = serde_json::from_str::<Value>("nope").unwrap_err();
    let text = failure.to_string();
    assert_eq!(content_bytes(Err(failure)), Err(EncodingError::Payload(text)));
}

#[test]
fn the_answer_of_the_decoder_becomes_the_document_or_a_payload_error() {
    assert_eq!(parsed_content(Ok(document())), Ok(document()));
    assert_eq!(parsed_content(Ok(Value::Null)), Ok(Value::Null));
    let failure = serde_json::from_slice::<Value>(b"[1,").unwrap_err();
    let text = failure.to_string();
    assert_eq!(parsed_content(Err(failure)), Err(EncodingError::Payload(text)));
}

#[test]
fn decoding_succeeds_exactly_on_the_text_of_one_document() {
    assert_eq!(decode_content(b"null"), Ok(Value::Null));
    assert_eq!(decode_content(b" \n[true]\t"), Ok(Value::Array(vec![Value::Bool(true)])));
    assert_eq!(decode_content(b"\"hi there\""), Ok(Value::String("hi there".to_string())));
    assert!(decode_content(b"null null").is_err());
    assert!(decode_content(b"[true] x").is_err());
    assert!(decode_content(b"nul").is_err());
    assert!(decode_content(b" ").is_err());
}

#[test]
fn a_json_document_is_stored_and_found() {
    let store = CachingContentStore::init("cache");
    let mut dir = MemoryDir::new();
    let entry = CachedContent::stamped(document(), Some(TimeSpan::from_secs(100)), TimeSpan::from_secs(1));
    assert_eq!(run(&mut dir, store.store_json("doc", &entry), TimeSpan::from_secs(1)), Ok(Outcome::Stored));
    match run(&mut dir, store.get("doc"), TimeSpan::from_secs(50)) {
        Ok(Outcome::Content(Some(bytes))) => assert_eq!(decode_content(&bytes), Ok(document())),
        other => panic!("lookup ended with {:?}", other),
    }
    assert_eq!(run(&mut dir, store.get("doc"), TimeSpan::from_secs(101)), Ok(Outcome::Content(None)));
}

#[test]
fn store_json_refuses_a_bad_tag_first() {
    let store = CachingContentStore::init("cache");
    let entry = CachedContent::stamped(Value::Null, None, TimeSpan::zero());
    assert_eq!(
        store.store_json("a/b", &entry),
        Step::Finished(Err(StoreError::InvalidTag(InvalidTagError::ForbiddenCharacter)))
    );
}

#[test]
fn a_document_and_its_text_go_together() {
    let first = encode_content(&document()).unwrap();
    let second = encode_content(&document()).unwrap();
    assert_eq!(first, second);
    let entry = CachedContent::from_parts(TimeSpan::zero(), None, document());
    let text = entry.as_json().unwrap();
    assert!(text.ends_with(&format!(",\"content\":{}}}", String::from_utf8(first).unwrap())));
}

#[test]
fn store_json_writes_the_text_of_the_document() {
    let store = CachingContentStore::init("cache");
    let entry = CachedContent::stamped(document(), None, TimeSpan::from_secs(1));
    let bytes = encode_content(&document()).unwrap();
    let raw = CachedContent::stamped(bytes, None, TimeSpan::from_secs(1));
    assert_eq!(store.store_json("doc", &entry), store.store("doc", &raw));
}
