use corpus_stats::langid::{
    decide, encode_request, frame_request, mend_reply, read_reply, IsIsiXhosa, ReplyError, Verdict,
    CONFIDENCE_THRESHOLD,
};

fn verdict(language: &str, confidence: f64) -> Verdict {
    Verdict { language: language.to_string(), confidence: confidence.to_bits() }
}

#[test]
fn request_is_framed_as_compact_json() {
    assert_eq!(encode_request("Molo").unwrap(), r#"{"text":"Molo","benchmark":0}"#);
    assert_eq!(frame_request("\"x\""), r#"{"text":"x","benchmark":0}"#);
}

#[test]
fn request_escapes_the_sentence() {
    assert_eq!(
        encode_request("say \"hi\"\n").unwrap(),
        r#"{"text":"say \"hi\"\n","benchmark":0}"#
    );
    assert_eq!(encode_request("").unwrap(), r#"{"text":"","benchmark":0}"#);
}

#[test]
fn threshold_is_the_double_one_half() {
    assert_eq!(CONFIDENCE_THRESHOLD, 0.5f64.to_bits());
}

#[test]
fn decision_needs_confidence_and_language() {
    assert_eq!(decide(&verdict("isiXhosa", 0.9)), IsIsiXhosa::Yes);
    assert_eq!(decide(&verdict("isiXhosa", 0.5)), IsIsiXhosa::Yes);
    assert_eq!(decide(&verdict("isiXhosa", 1.0)), IsIsiXhosa::Yes);
    assert_eq!(decide(&verdict("isiXhosa", 0.49999)), IsIsiXhosa::No);
    assert_eq!(decide(&verdict("isiXhosa", 0.0)), IsIsiXhosa::No);
    assert_eq!(decide(&verdict("isiXhosa", -0.9)), IsIsiXhosa::No);
    assert_eq!(decide(&verdict("isiXhosa", f64::NAN)), IsIsiXhosa::No);
    assert_eq!(decide(&verdict("isiZulu", 0.99)), IsIsiXhosa::No);
    assert_eq!(decide(&verdict("isixhosa", 0.99)), IsIsiXhosa::No);
    assert_eq!(decide(&verdict("", 0.99)), IsIsiXhosa::No);
}

#[test]
fn reply_is_read_and_decided() {
    assert_eq!(read_reply(br#"{"language":"isiXhosa","confidence":0.93}"#), Ok(IsIsiXhosa::Yes));
    assert_eq!(read_reply(br#"{"language":"isiXhosa","confidence":0.5}"#), Ok(IsIsiXhosa::Yes));
    assert_eq!(read_reply(br#"{"language":"isiXhosa","confidence":1}"#), Ok(IsIsiXhosa::Yes));
    assert_eq!(read_reply(br#"{"language":"isiXhosa","confidence":0.2}"#), Ok(IsIsiXhosa::No));
    assert_eq!(read_reply(br#"{"language":"English","confidence":0.99}"#), Ok(IsIsiXhosa::No));
    assert_eq!(read_reply(br#"{"confidence":0.99,"language":"isiXhosa","extra":[1]}"#), Ok(IsIsiXhosa::Yes));
}

#[test]
fn malformed_separator_is_tolerated() {
    assert_eq!(read_reply(br#"{"language":"isiXhosa","confidence:"0.93}"#), Ok(IsIsiXhosa::Yes));
    assert_eq!(read_reply(br#"{"language":"isiXhosa","confidence:"0.1}"#), Ok(IsIsiXhosa::No));
    assert_eq!(
        mend_reply(r#"{"language":"isiXhosa","confidence:"0.93}"#),
        r#"{"language":"isiXhosa","confidence":0.93}"#
    );
    assert_eq!(mend_reply(r#"{"confidence":0.5}"#), r#"{"confidence":0.5}"#);
    assert_eq!(mend_reply(r#"confidence:"confidence:""#), r#"confidence":confidence":"#);
}

#[test]
fn unreadable_replies_are_errors() {
    assert_eq!(read_reply(&[0xff, 0xfe, 0x00]), Err(ReplyError::NotText));
    assert_eq!(read_reply(b""), Err(ReplyError::NotAVerdict));
    assert_eq!(read_reply(b"busy"), Err(ReplyError::NotAVerdict));
    assert_eq!(read_reply(br#"{"language":"isiXhosa"}"#), Err(ReplyError::NotAVerdict));
    assert_eq!(read_reply(br#"{"language":"isiXhosa","confidence":"high"}"#), Err(ReplyError::NotAVerdict));
    assert_eq!(read_reply(br#"{"language":7,"confidence":0.9}"#), Err(ReplyError::NotAVerdict));
    assert_eq!(read_reply(br#"["isiXhosa",0.9]"#), Err(ReplyError::NotAVerdict));
}

#[test]
fn request_escapes_control_characters_only_below_space() {
    assert_eq!(
        encode_request("a\u{1}b\u{1f}c\u{8}\u{c}\t\r").unwrap(),
        "{\"text\":\"a\\u0001b\\u001fc\\b\\f\\t\\r\",\"benchmark\":0}"
    );
    assert_eq!(
        encode_request("back\\slash / \u{7f} é 漢").unwrap(),
        "{\"text\":\"back\\\\slash / \u{7f} é 漢\",\"benchmark\":0}"
    );
}
