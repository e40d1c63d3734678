use caching_content_store::error::InvalidTagError;
use caching_content_store::tag::{check_tag_bytes, escape_bytes, unescape_bytes, TagCodec};

#[test]
fn plain_tags_are_their_own_file_name() {
    assert_eq!(TagCodec::encode("foo"), Ok("foo".to_string()));
    assert_eq!(TagCodec::encode("a_b-c09"), Ok("a_b-c09".to_string()));
}

#[test]
fn other_bytes_are_escaped_in_upper_case_hex() {
    assert_eq!(TagCodec::encode("Foo Bar"), Ok("%46oo%20%42ar".to_string()));
    assert_eq!(TagCodec::encode("a.b"), Ok("a%2Eb".to_string()));
    assert_eq!(TagCodec::encode("%"), Ok("%25".to_string()));
    assert_eq!(TagCodec::encode("\u{e9}"), Ok("%C3%A9".to_string()));
    assert_eq!(TagCodec::encode("\u{1f600}"), Ok("%F0%9F%98%80".to_string()));
}

#[test]
fn empty_tag_is_refused() {
    assert_eq!(TagCodec::encode(""), Err(InvalidTagError::Empty));
}

#[test]
fn separators_and_nul_are_refused() {
    assert_eq!(TagCodec::encode("a/b"), Err(InvalidTagError::ForbiddenCharacter));
    assert_eq!(TagCodec::encode("a\\b"), Err(InvalidTagError::ForbiddenCharacter));
    assert_eq!(TagCodec::encode("a\0b"), Err(InvalidTagError::ForbiddenCharacter));
    assert_eq!(TagCodec::encode("/"), Err(InvalidTagError::ForbiddenCharacter));
}

#[test]
fn two_dots_in_a_row_are_refused() {
    assert_eq!(TagCodec::encode(".."), Err(InvalidTagError::ParentReference));
    assert_eq!(TagCodec::encode("a..b"), Err(InvalidTagError::ParentReference));
    assert_eq!(TagCodec::encode("a.b.c"), Ok("a%2Eb%2Ec".to_string()));
    assert_eq!(TagCodec::encode("."), Ok("%2E".to_string()));
}

#[test]
fn traversal_tag_is_refused_for_its_separator() {
    assert_eq!(TagCodec::encode("../etc/passwd"), Err(InvalidTagError::ForbiddenCharacter));
}

#[test]
fn decode_undoes_encode() {
    for tag in ["foo", "Foo Bar", "a.b", "%", "\u{e9}t\u{e9}", "\u{1f600}", "x y z", "UPPER", "tab\there"] {
        let name = TagCodec::encode(tag).unwrap();
        assert_eq!(TagCodec::decode(&name), Some(tag.to_string()));
    }
}

#[test]
fn distinct_tags_have_distinct_names() {
    let tags = ["a", "A", "a ", " a", "%61", "a%", "b", "ab", "a-b", "a_b"];
    for i in 0..tags.len() {
        for j in 0..tags.len() {
            if i != j {
                assert_ne!(TagCodec::encode(tags[i]).unwrap(), TagCodec::encode(tags[j]).unwrap());
            }
        }
    }
}

#[test]
fn file_names_hold_only_safe_characters() {
    for tag in ["foo", "Foo Bar", "a.b", "\u{e9}", "~$&", "C:"] {
        let name = TagCodec::encode(tag).unwrap();
        assert!(!name.is_empty());
        assert!(name.chars().all(|c| c.is_ascii_lowercase()
            || c.is_ascii_digit()
            || c == '_'
            || c == '-'
            || c == '%'
            || ('A'..='F').contains(&c)));
    }
}

#[test]
fn names_that_are_no_file_name_of_a_tag_decode_to_nothing() {
    assert_eq!(TagCodec::decode(""), None);
    assert_eq!(TagCodec::decode("foo.tmp"), None);
    assert_eq!(TagCodec::decode("FOO"), None);
    assert_eq!(TagCodec::decode("%61"), None);
    assert_eq!(TagCodec::decode("%2e"), None);
    assert_eq!(TagCodec::decode("%4"), None);
    assert_eq!(TagCodec::decode("%GG"), None);
    assert_eq!(TagCodec::decode("%2F"), None);
    assert_eq!(TagCodec::decode("%00"), None);
    assert_eq!(TagCodec::decode("%2E%2E"), None);
    assert_eq!(TagCodec::decode("%FF"), None);
    assert_eq!(TagCodec::decode("caf\u{e9}"), None);
}

#[test]
fn names_of_tags_decode_to_them() {
    assert_eq!(TagCodec::decode("foo"), Some("foo".to_string()));
    assert_eq!(TagCodec::decode("%46oo%20%42ar"), Some("Foo Bar".to_string()));
    assert_eq!(TagCodec::decode("%C3%A9"), Some("\u{e9}".to_string()));
}

#[test]
fn bytes_are_checked_and_escaped() {
    assert_eq!(check_tag_bytes(b"ok"), None);
    assert_eq!(check_tag_bytes(b""), Some(InvalidTagError::Empty));
    assert_eq!(check_tag_bytes(b"a/.."), Some(InvalidTagError::ForbiddenCharacter));
    assert_eq!(check_tag_bytes(b"..a"), Some(InvalidTagError::ParentReference));
    assert_eq!(escape_bytes(&[0x00, 0x61, 0xff]), b"%00a%FF".to_vec());
    assert_eq!(unescape_bytes(b"%00a%FF"), Some(vec![0x00, 0x61, 0xff]));
    assert_eq!(unescape_bytes(b"%0"), None);
}
