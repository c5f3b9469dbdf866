//! The payload codec, exercised from outside: exact encodings, round trips,
//! foreign encodings of the same shape, and rejections.

use ssh_keys::bundle::Bundle;
use ssh_keys::codec::{decode, encode};
use ssh_keys::errors::ErrorKind;

fn bundle_of(pairs: &[(&str, &str)]) -> Bundle {
    let mut b = Bundle::new();
    for (k, v) in pairs {
        b.insert(k.to_string(), v.to_string());
    }
    b
}

#[test]
fn encode_is_pretty_and_sorted() {
    let b = bundle_of(&[("id_rsa.pub", "B"), ("id_rsa", "A")]);
    let s = encode(&b);
    assert_eq!(s, "{\n  \"id_rsa\": \"A\",\n  \"id_rsa.pub\": \"B\"\n}");
}

#[test]
fn encode_empty_bundle() {
    let b = Bundle::new();
    assert_eq!(encode(&b), "{}");
}

#[test]
fn decode_empty_object() {
    let b = decode("{}").unwrap();
    assert_eq!(b.len(), 0);
    let b = decode("  { \n }  ").unwrap();
    assert_eq!(b.len(), 0);
}

#[test]
fn round_trip_simple() {
    let b = bundle_of(&[("id_rsa", "A"), ("id_rsa.pub", "B")]);
    let back = decode(&encode(&b)).unwrap();
    assert_eq!(back.get("id_rsa").unwrap(), "A");
    assert_eq!(back.get("id_rsa.pub").unwrap(), "B");
    assert_eq!(back.len(), 2);
}

#[test]
fn round_trip_escapes_and_unicode() {
    let b = bundle_of(&[
        ("keys \"quoted\"", "line1\nline2\r\ttabbed\\slash"),
        ("unicode", "caf\u{e9} \u{1f600} \u{1}"),
        ("control\u{8}\u{c}", "\u{0}\u{1f}"),
    ]);
    let back = decode(&encode(&b)).unwrap();
    assert_eq!(
        back.get("keys \"quoted\"").unwrap(),
        "line1\nline2\r\ttabbed\\slash"
    );
    assert_eq!(back.get("unicode").unwrap(), "caf\u{e9} \u{1f600} \u{1}");
    assert_eq!(back.get("control\u{8}\u{c}").unwrap(), "\u{0}\u{1f}");
}

#[test]
fn decode_accepts_short_and_hex_escapes() {
    let b = decode("{\"a\": \"\\u0041\\n\\t\\\"\\\\\\/\"}").unwrap();
    assert_eq!(b.get("a").unwrap(), "A\n\t\"\\/");
}

#[test]
fn decode_accepts_surrogate_pairs() {
    let b = decode("{\"e\": \"\\ud83d\\ude00\"}").unwrap();
    assert_eq!(b.get("e").unwrap(), "\u{1f600}");
}

#[test]
fn decode_rejects_lone_surrogate() {
    let r = decode("{\"e\": \"\\ud83d\"}");
    assert!(r.is_err());
}

#[test]
fn decode_later_key_wins() {
    let b = decode("{\"a\": \"1\", \"a\": \"2\"}").unwrap();
    assert_eq!(b.get("a").unwrap(), "2");
    assert_eq!(b.len(), 1);
}

#[test]
fn decode_rejects_malformed_payloads() {
    for bad in [
        "",
        "   ",
        "[]",
        "null",
        "\"text\"",
        "{",
        "{}}",
        "{\"a\": 1}",
        "{\"a\": \"b\",}",
        "{\"a\": \"b\"} trailing",
        "{\"a\" \"b\"}",
        "{\"a\": \"b\"",
        "{\"a\": \"\u{1}\"}",
    ] {
        let r = decode(bad);
        match r {
            Err(e) => assert_eq!(e.kind(), ErrorKind::Decode),
            Ok(_) => panic!("accepted malformed payload"),
        }
    }
}

#[test]
fn decode_accepts_foreign_encoding_of_same_shape() {
    let mut m = serde_json::Map::new();
    m.insert(
        "id_ed25519".to_string(),
        serde_json::Value::String("secret\nmaterial".to_string()),
    );
    m.insert(
        "weird \u{1f511}".to_string(),
        serde_json::Value::String("\u{7}bell".to_string()),
    );
    let text = serde_json::to_string(&serde_json::Value::Object(m)).unwrap();
    let b = decode(&text).unwrap();
    assert_eq!(b.get("id_ed25519").unwrap(), "secret\nmaterial");
    assert_eq!(b.get("weird \u{1f511}").unwrap(), "\u{7}bell");
}

#[test]
fn encode_is_readable_by_foreign_decoder() {
    let b = bundle_of(&[("id_rsa", "A\nB"), ("x \"y\"", "\u{1f600}")]);
    let v: serde_json::Value = serde_json::from_str(&encode(&b)).unwrap();
    assert_eq!(v["id_rsa"], serde_json::Value::String("A\nB".to_string()));
    assert_eq!(v["x \"y\""], serde_json::Value::String("\u{1f600}".to_string()));
}
