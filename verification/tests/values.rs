use sophon_sdk::digest::{be_bytes_of, digest_in_domain, digest_of_fields, frame_texts};
use sophon_sdk::json::{object_json, push_field, text_json, Json, RawJson};
use sophon_sdk::text::{
    blank, byte_len, decimal_text, parse_i32, parse_u64, signed_text, split_head, split_lines,
    strip_prefix, text_before, trim_end_text, trim_start_text, trim_text,
};
use sophon_sdk::text_map::TextMap;

#[test]
fn digests_are_those_of_the_framed_bytes() {
    assert_eq!(
        digest_in_domain(b"", b"abc"),
        "sha256:ba7816bf8f01cfea414140de5dae2223b00361a396177a9cb410ff61f20015ad"
    );
    assert_eq!(digest_in_domain(b"a", b"bc"), digest_in_domain(b"", b"abc"));
    assert_eq!(digest_of_fields(b"abc", &vec![]), digest_in_domain(b"", b"abc"));
    assert_eq!(be_bytes_of(258), vec![0, 0, 0, 0, 0, 0, 1, 2]);
    assert_eq!(
        frame_texts(&vec!["a".to_string(), "".to_string()]),
        vec![0, 0, 0, 0, 0, 0, 0, 1, 97, 0, 0, 0, 0, 0, 0, 0, 0]
    );
}

#[test]
fn documents_are_read_and_written() {
    let text = "{\"b\":[1,-2,null,true],\"a\":\"x\\ny\"}";
    let document = Json::parse(text).unwrap();
    assert_eq!(document.write(), text);
    assert_eq!(document.text_at("a"), Some("x\ny".to_string()));
    assert_eq!(
        document.canonical().write(),
        "{\"a\":\"x\\ny\",\"b\":[1,-2,null,true]}"
    );
    assert_eq!(document.get("b").unwrap().as_list().unwrap()[0].as_unsigned(), Some(1));
    assert_eq!(Json::parse("1.5"), Some(Json::Decimal("1.5".to_string())));
    assert!(Json::parse("{").is_none());
    assert_eq!(document.duplicate(), document);
    let mut fields = Vec::new();
    push_field(&mut fields, "k", text_json("v"));
    assert_eq!(object_json(fields).write(), "{\"k\":\"v\"}");
}

#[test]
fn numbers_at_the_edges_are_read_back() {
    for text in ["0", "18446744073709551615", "-1", "-9223372036854775808"] {
        let document = Json::parse(text).unwrap();
        assert_eq!(document.write(), text);
        assert_eq!(Json::parse(&document.write()), Some(document));
    }
    assert_eq!(Json::parse("-1"), Some(Json::Negative(-1)));
    assert_eq!(Json::parse("0"), Some(Json::Unsigned(0)));
}

#[test]
fn raw_documents_give_their_parts() {
    let raw = RawJson::parse("{\"a\":{\"b\":1}}").unwrap();
    assert_eq!(raw.encoded_len(), 13);
    assert_eq!(raw.field("a").document(), Json::parse("{\"b\":1}").unwrap());
    assert_eq!(raw.field("none").document(), Json::Null);
    assert_eq!(
        RawJson::tagged("t", "x", "k", raw.field("a")).document(),
        Json::parse("{\"t\":\"x\",\"k\":{\"b\":1}}").unwrap()
    );
}

#[test]
fn texts_are_cut_and_compared() {
    assert_eq!(trim_text("  a b\t"), "a b");
    assert_eq!(trim_start_text("  a "), "a ");
    assert_eq!(trim_end_text(" a  "), " a");
    assert!(blank(" \u{a0}\n"));
    assert!(!blank("x"));
    assert_eq!(byte_len("é"), 2);
    assert_eq!(split_head("a b c"), ("a".to_string(), "b c".to_string()));
    assert_eq!(split_head("a"), ("a".to_string(), "".to_string()));
    assert_eq!(split_lines("a\r\nb\n\nc"), vec!["a", "b", "", "c"]);
    assert_eq!(strip_prefix("session:x", "session:"), Some("x".to_string()));
    assert_eq!(strip_prefix("x", "session:"), None);
    assert!(text_before("a", "b"));
    assert!(text_before("a", "aa"));
    assert!(!text_before("b", "a"));
}

#[test]
fn numbers_are_read_back_from_their_text() {
    for n in [0, 9, 10, u64::MAX] {
        assert_eq!(parse_u64(&decimal_text(n)), Some(n));
    }
    for n in [0, -1, i32::MAX, i32::MIN] {
        assert_eq!(parse_i32(&signed_text(n)), Some(n));
    }
    assert_eq!(parse_u64("18446744073709551616"), None);
    assert_eq!(parse_u64(""), None);
    assert_eq!(parse_i32("2147483648"), None);
}

#[test]
fn maps_keep_their_keys_in_order() {
    let mut map: TextMap<u32> = TextMap::new();
    map.insert("b", 2);
    map.insert("a", 1);
    map.insert("b", 3);
    assert_eq!(map.len(), 2);
    assert_eq!(map.key_at(0), "a");
    assert_eq!(map.get("b"), Some(&3));
    map.remove("a");
    assert!(!map.contains_key("a"));
    assert!(!map.is_empty());
}
