use kmh::codec::{decode_records, encode_records};
use kmh::record::{JsonDatabseKMH, VaultError};

fn rec(t: &str, u: &str, p: &str, n: &str) -> JsonDatabseKMH {
    JsonDatabseKMH::new(t.to_string(), u.to_string(), p.to_string(), n.to_string())
}

#[test]
fn empty_list_encodes_to_empty_array() {
    assert_eq!(encode_records(&vec![]), b"[]".to_vec());
}

#[test]
fn record_encodes_in_field_order() {
    let text = encode_records(&vec![rec("mail", "a@b.com", "p", "")]);
    assert_eq!(
        String::from_utf8(text).unwrap(),
        "[{\"title\":\"mail\",\"username\":\"a@b.com\",\"password\":\"p\",\"notes\":\"\"}]"
    );
}

#[test]
fn records_are_separated_by_commas() {
    let text = encode_records(&vec![rec("a", "b", "c", "d"), rec("e", "f", "g", "h")]);
    assert_eq!(
        String::from_utf8(text).unwrap(),
        "[{\"title\":\"a\",\"username\":\"b\",\"password\":\"c\",\"notes\":\"d\"},\
         {\"title\":\"e\",\"username\":\"f\",\"password\":\"g\",\"notes\":\"h\"}]"
    );
}

#[test]
fn special_bytes_are_escaped() {
    let text = encode_records(&vec![rec("q\"b\\", "\n\t\r", "\u{8}\u{c}", "\u{1}\u{1f}\u{7f}é")]);
    assert_eq!(
        String::from_utf8(text).unwrap(),
        "[{\"title\":\"q\\\"b\\\\\",\"username\":\"\\n\\t\\r\",\"password\":\"\\b\\f\",\
         \"notes\":\"\\u0001\\u001f\u{7f}é\"}]"
    );
}

#[test]
fn encoding_matches_serde_json_string_literals() {
    let fields = ["tab\there", "quote\"", "back\\slash", "ctl\u{2}\u{1b}", "ünï ☃ 𝄞"];
    for f in fields.iter() {
        let text = encode_records(&vec![rec(f, "u", "p", "n")]);
        let expected = format!(
            "[{{\"title\":{},\"username\":\"u\",\"password\":\"p\",\"notes\":\"n\"}}]",
            serde_json::to_string(f).unwrap()
        );
        assert_eq!(String::from_utf8(text).unwrap(), expected);
    }
}

#[test]
fn serde_json_reads_the_encoding() {
    let text = encode_records(&vec![rec("t\"1", "u\n", "p\\", "n\u{3}"), rec("", "", "", "")]);
    let v: serde_json::Value = serde_json::from_slice(&text).unwrap();
    assert_eq!(v[0]["title"].as_str(), Some("t\"1"));
    assert_eq!(v[0]["username"].as_str(), Some("u\n"));
    assert_eq!(v[0]["password"].as_str(), Some("p\\"));
    assert_eq!(v[0]["notes"].as_str(), Some("n\u{3}"));
    assert_eq!(v[1]["title"].as_str(), Some(""));
    assert_eq!(v.as_array().unwrap().len(), 2);
}

#[test]
fn decode_reverses_encode() {
    let records = vec![
        rec("mail", "a@b.com", "p", ""),
        rec("q\"b\\", "\n\t\r", "\u{8}\u{c}", "\u{1}\u{1f}é☃"),
        rec("", "", "", ""),
    ];
    let text = encode_records(&records);
    assert_eq!(decode_records(&text), Ok(records));
}

#[test]
fn decode_empty_array() {
    assert_eq!(decode_records(b"[]"), Ok(vec![]));
}

#[test]
fn decode_reads_text_written_by_serde_json() {
    let text = format!(
        "[{{\"title\":{},\"username\":{},\"password\":{},\"notes\":{}}}]",
        serde_json::to_string("a\u{0}b").unwrap(),
        serde_json::to_string("x\"y").unwrap(),
        serde_json::to_string("s3cr3t").unwrap(),
        serde_json::to_string("line\nbreak").unwrap()
    );
    assert_eq!(
        decode_records(text.as_bytes()),
        Ok(vec![rec("a\u{0}b", "x\"y", "s3cr3t", "line\nbreak")])
    );
}

#[test]
fn decode_rejects_non_canonical_text() {
    let bad: [&[u8]; 12] = [
        b"",
        b"[",
        b"[ ]",
        b"{}",
        b"[]x",
        b"[{\"title\":\"a\",\"username\":\"b\",\"password\":\"c\"}]",
        b"[{\"title\":\"a\",\"username\":\"b\",\"password\":\"c\",\"notes\":\"d\"},]",
        b"[{\"title\":\"a\",\"username\":\"b\",\"password\":\"c\",\"notes\":\"d\"}",
        b"[{\"title\":\"\\u001F\",\"username\":\"b\",\"password\":\"c\",\"notes\":\"d\"}]",
        b"[{\"title\":\"\\/\",\"username\":\"b\",\"password\":\"c\",\"notes\":\"d\"}]",
        b"[{\"title\":\"\\u000a\",\"username\":\"b\",\"password\":\"c\",\"notes\":\"d\"}]",
        b"[{\"title\":\"a\nb\",\"username\":\"b\",\"password\":\"c\",\"notes\":\"d\"}]",
    ];
    for text in bad.iter() {
        assert_eq!(decode_records(text), Err(VaultError::DecodeFailure));
    }
}

#[test]
fn decode_rejects_invalid_utf8_in_a_field() {
    let text = b"[{\"title\":\"\xff\",\"username\":\"b\",\"password\":\"c\",\"notes\":\"d\"}]";
    assert_eq!(decode_records(text), Err(VaultError::DecodeFailure));
}

#[test]
fn corrupted_payload_is_rejected_at_parse_time() {
    let mut text = encode_records(&vec![rec("mail", "a@b.com", "p", "")]);
    let last = text.len() - 1;
    text[last] = b'}';
    assert_eq!(decode_records(&text), Err(VaultError::DecodeFailure));
    let mut text2 = encode_records(&vec![rec("mail", "a@b.com", "p", "")]);
    text2[3] = b'T';
    assert_eq!(decode_records(&text2), Err(VaultError::DecodeFailure));
}
