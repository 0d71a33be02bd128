use dashboard::codec::{decode_message, encode_message, parse_tile_ids, Message};

fn msg(kind: &str, text: &str) -> Message {
    Message {
        kind: kind.to_string(),
        text: text.to_string(),
    }
}

#[test]
fn encode_writes_the_two_field_envelope() {
    let m = msg("tile", "{}");

    assert_eq!(encode_message(&m), "{\"kind\":\"tile\",\"text\":\"{}\"}");
}

#[test]
fn encode_escapes_quotes_and_backslashes() {
    let m = msg("error", "a \"quoted\" \\ thing");

    assert_eq!(
        encode_message(&m),
        "{\"kind\":\"error\",\"text\":\"a \\\"quoted\\\" \\\\ thing\"}"
    );
}

#[test]
fn encode_escapes_control_characters() {
    let m = msg("error", "line\nbreak\ttab\u{1}end");

    assert_eq!(
        encode_message(&m),
        "{\"kind\":\"error\",\"text\":\"line\\nbreak\\ttab\\u0001end\"}"
    );
}

#[test]
fn decode_inverts_encode() {
    let cases = [
        msg("update", "[\"tile-a\",\"tile-b\"]"),
        msg("tile", "{\"tile-id\":\"a\"}"),
        msg("error", "it \"failed\" \\ badly\nindeed\u{7}"),
        msg("", ""),
        msg("kind", "text"),
        msg("snowman \u{2603}", "clef \u{1D11E}"),
    ];
    for m in cases {
        let raw = encode_message(&m);
        let back = decode_message(&raw).unwrap();
        assert_eq!(back.kind, m.kind);
        assert_eq!(back.text, m.text);
    }
}

#[test]
fn decode_accepts_either_field_order_and_whitespace() {
    let back = decode_message(" {\n\t\"text\" : \"b\" , \"kind\" : \"a\" } ").unwrap();

    assert_eq!(back.kind, "a");
    assert_eq!(back.text, "b");
}

#[test]
fn decode_reads_the_json_escapes() {
    let back = decode_message(
        "{\"kind\":\"\\u0041\\u005a\",\"text\":\"\\\"\\\\\\/\\b\\f\\n\\r\\t\\uD834\\uDD1E\"}",
    )
    .unwrap();

    assert_eq!(back.kind, "AZ");
    assert_eq!(back.text, "\"\\/\u{8}\u{c}\n\r\t\u{1D11E}");
}

#[test]
fn decode_rejects_invalid_json() {
    assert!(decode_message("").is_none());
    assert!(decode_message("not json").is_none());
    assert!(decode_message("{\"kind\":\"a\",\"text\":\"b\"").is_none());
    assert!(decode_message("{\"kind\":\"a\" \"text\":\"b\"}").is_none());
    assert!(decode_message("{\"kind\":\"a\",\"text\":\"b\"} trailing").is_none());
    assert!(decode_message("{\"kind\":\"a\",\"text\":\"\\u12\"}").is_none());
    assert!(decode_message("{\"kind\":\"a\",\"text\":\"\\uD834\"}").is_none());
    assert!(decode_message("{\"kind\":\"a\",\"text\":\"\\q\"}").is_none());
}

#[test]
fn decode_rejects_missing_or_mistyped_fields() {
    assert!(decode_message("{\"kind\":\"update\"}").is_none());
    assert!(decode_message("{\"text\":\"x\"}").is_none());
    assert!(decode_message("{\"kind\":5,\"text\":\"x\"}").is_none());
    assert!(decode_message("{\"kind\":\"a\",\"text\":[]}").is_none());
    assert!(decode_message("{\"kind\":\"a\",\"body\":\"x\"}").is_none());
    assert!(decode_message("{\"kind\":\"a\",\"text\":\"b\",\"extra\":\"c\"}").is_none());
    assert!(decode_message("{\"kind\":\"a\",\"kind\":\"b\"}").is_none());
    assert!(decode_message("{}").is_none());
}

#[test]
fn tile_ids_come_back_in_request_order() {
    let ids = parse_tile_ids("[\"tile-a\", \"tile-b\", \"tile-a\"]").unwrap();

    assert_eq!(ids, vec!["tile-a", "tile-b", "tile-a"]);
}

#[test]
fn tile_ids_accept_the_empty_list() {
    assert_eq!(parse_tile_ids(" [ ] "), Some(vec![]));
}

#[test]
fn tile_ids_reject_anything_but_a_string_array() {
    assert!(parse_tile_ids("").is_none());
    assert!(parse_tile_ids("{}").is_none());
    assert!(parse_tile_ids("[1]").is_none());
    assert!(parse_tile_ids("[\"a\",]").is_none());
    assert!(parse_tile_ids("[\"a\" \"b\"]").is_none());
    assert!(parse_tile_ids("[\"a\"] extra").is_none());
}
