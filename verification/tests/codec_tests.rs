use cmd_relay::MessageData;
use cmd_relay::MessageType;

fn msg(
    message: &str,
    msg_type: MessageType,
    meta: Option<&str>,
    streaming: bool,
) -> MessageData {
    MessageData {
        message: message.to_string(),
        msg_type,
        meta: meta.map(|m| m.to_string()),
        streaming,
    }
}

#[test]
fn encode_is_canonical() {
    let m = msg("hi", MessageType::Sh, Some("tag-7"), false);
    assert_eq!(
        m.encode(),
        "{\"message\":\"hi\",\"type\":\"sh\",\"meta\":\"tag-7\",\"streaming\":false}"
    );
}

#[test]
fn encode_null_meta() {
    let m = msg("", MessageType::Echo, None, true);
    assert_eq!(
        m.encode(),
        "{\"message\":\"\",\"type\":\"echo\",\"meta\":null,\"streaming\":true}"
    );
}

#[test]
fn round_trip_null_meta_and_false_streaming() {
    let m = msg("out line", MessageType::Ls, None, false);
    let d = cmd_relay::decode_frame(&m.encode()).expect("round trip failed");
    assert_eq!(d.message, "out line");
    assert_eq!(d.msg_type, MessageType::Ls);
    assert_eq!(d.meta, None);
    assert!(!d.streaming);
}

#[test]
fn round_trip_every_kind() {
    let kinds = [
        MessageType::Error,
        MessageType::Echo,
        MessageType::Time,
        MessageType::Ls,
        MessageType::Sh,
        MessageType::Empty,
    ];
    for k in kinds {
        let m = msg("x", k, Some("m"), true);
        let d = cmd_relay::decode_frame(&m.encode()).expect("round trip failed");
        assert_eq!(d.msg_type, k);
    }
}

#[test]
fn round_trip_escapes() {
    let m = msg("a\"b\\c\nd\re\tf\u{7}g", MessageType::Echo, Some("x\ny"), true);
    let encoded = m.encode();
    assert!(encoded.contains("\\u0007"));
    let d = cmd_relay::decode_frame(&encoded).expect("round trip failed");
    assert_eq!(d.message, "a\"b\\c\nd\re\tf\u{7}g");
    assert_eq!(d.meta.as_deref(), Some("x\ny"));
}

#[test]
fn round_trip_non_ascii_text() {
    let m = msg("héllo wörld ✓", MessageType::Echo, None, true);
    let d = cmd_relay::decode_frame(&m.encode()).expect("round trip failed");
    assert_eq!(d.message, "héllo wörld ✓");
}

#[test]
fn decode_applies_defaults() {
    let d = cmd_relay::decode_frame("{}").expect("empty object should decode");
    assert_eq!(d.message, "");
    assert_eq!(d.msg_type, MessageType::Echo);
    assert_eq!(d.meta, None);
    assert!(d.streaming);
}

#[test]
fn decode_time_request() {
    let d = cmd_relay::decode_frame("{\"type\":\"time\"}").expect("time request should decode");
    assert_eq!(d.msg_type, MessageType::Time);
    assert_eq!(d.message, "");
    assert!(d.streaming);
}

#[test]
fn decode_sh_request() {
    let d = cmd_relay::decode_frame(
        "{\"type\":\"sh\",\"message\":\"echo hi\",\"streaming\":false}",
    )
    .expect("sh request should decode");
    assert_eq!(d.msg_type, MessageType::Sh);
    assert_eq!(d.message, "echo hi");
    assert!(!d.streaming);
}

#[test]
fn decode_accepts_whitespace_and_any_member_order() {
    let d = cmd_relay::decode_frame(
        " {\n\t\"streaming\" : false , \"message\" : \"a b\" ,\r\n \"type\" : \"ls\" } ",
    )
    .expect("reordered frame should decode");
    assert_eq!(d.msg_type, MessageType::Ls);
    assert_eq!(d.message, "a b");
    assert!(!d.streaming);
}

#[test]
fn decode_unicode_escape() {
    let d = cmd_relay::decode_frame("{\"message\":\"\\u0041\\u000a\"}").expect("should decode");
    assert_eq!(d.message, "A\n");
    let e = cmd_relay::decode_frame("{\"message\":\"\\u00e9\\u20aC\"}").expect("should decode");
    assert_eq!(e.message, "\u{e9}\u{20ac}");
}

#[test]
fn decode_surrogate_pair_escape() {
    let d = cmd_relay::decode_frame("{\"message\":\"\\ud83d\\ude00!\"}").expect("should decode");
    assert_eq!(d.message, "\u{1F600}!");
}

#[test]
fn decode_rejects_lone_surrogates() {
    assert!(cmd_relay::decode_frame("{\"message\":\"\\ud800\"}").is_none());
    assert!(cmd_relay::decode_frame("{\"message\":\"\\ud83d x\"}").is_none());
    assert!(cmd_relay::decode_frame("{\"message\":\"\\udc00\"}").is_none());
}

#[test]
fn decode_ignores_unknown_members() {
    let d = cmd_relay::decode_frame(
        "{\"extra\":\"s\",\"message\":\"m\",\"n\":-12.5e+3,\"flag\":true,\"nil\":null,\
         \"arr\":[1,[2,\"x\"],{}],\"obj\":{\"a\":{\"b\":[]}}}",
    )
    .expect("unknown members are ignored");
    assert_eq!(d.message, "m");
    assert_eq!(d.msg_type, MessageType::Echo);
    assert_eq!(d.meta, None);
    assert!(d.streaming);
}

#[test]
fn decode_ignores_repeated_unknown_members() {
    let d = cmd_relay::decode_frame("{\"a\":1,\"a\":2,\"type\":\"ls\"}")
        .expect("repeated unknown members are ignored");
    assert_eq!(d.msg_type, MessageType::Ls);
}

#[test]
fn ignored_values_nest_only_so_deep() {
    let shallow = format!("{{\"x\":{}1{}}}", "[".repeat(100), "]".repeat(100));
    assert!(cmd_relay::decode_frame(&shallow).is_some());
    let deep = format!("{{\"x\":{}1{}}}", "[".repeat(200), "]".repeat(200));
    assert!(cmd_relay::decode_frame(&deep).is_none());
}

#[test]
fn decode_explicit_null_meta() {
    let d = cmd_relay::decode_frame("{\"meta\":null,\"message\":\"x\"}").expect("should decode");
    assert_eq!(d.meta, None);
    assert_eq!(d.message, "x");
}

#[test]
fn decode_whitespace_only_object() {
    let d = cmd_relay::decode_frame("  {\t\n}  ").expect("should decode");
    assert_eq!(d.msg_type, MessageType::Echo);
}

#[test]
fn decode_rejects_malformed_frames() {
    assert!(cmd_relay::decode_frame("").is_none());
    assert!(cmd_relay::decode_frame("not json").is_none());
    assert!(cmd_relay::decode_frame("{\"message\":\"x\"").is_none());
    assert!(cmd_relay::decode_frame("{\"message\":5}").is_none());
    assert!(cmd_relay::decode_frame("{\"type\":\"nope\"}").is_none());
    assert!(cmd_relay::decode_frame("{\"meta\":true}").is_none());
    assert!(cmd_relay::decode_frame("{\"extra\":}").is_none());
    assert!(cmd_relay::decode_frame("{\"extra\":01}").is_none());
    assert!(cmd_relay::decode_frame("{\"extra\":[1,]}").is_none());
    assert!(cmd_relay::decode_frame("{\"streaming\":\"yes\"}").is_none());
    assert!(cmd_relay::decode_frame("{\"message\":\"a\",\"message\":\"b\"}").is_none());
    assert!(cmd_relay::decode_frame("{} trailing").is_none());
    assert!(cmd_relay::decode_frame("{\"message\":\"bad\\q\"}").is_none());
}

#[test]
fn decode_incoming_turns_failure_into_error_message() {
    let d = cmd_relay::decode_incoming("not a frame");
    assert_eq!(d.msg_type, MessageType::Error);
    assert_eq!(d.message, "malformed message frame");
    let ok = cmd_relay::decode_incoming("{\"type\":\"echo\",\"message\":\"m\"}");
    assert_eq!(ok.msg_type, MessageType::Echo);
    assert_eq!(ok.message, "m");
}

#[test]
fn constructors_have_default_fields() {
    let e = MessageData::empty();
    assert_eq!(e.msg_type, MessageType::Empty);
    assert_eq!(e.message, "");
    assert_eq!(e.meta, None);
    assert!(e.streaming);
    let err = MessageData::new_error("boom".to_string());
    assert_eq!(err.msg_type, MessageType::Error);
    assert_eq!(err.message, "boom");
    let d = MessageData::default();
    assert_eq!(d.msg_type, MessageType::Echo);
    assert!(d.streaming);
}
