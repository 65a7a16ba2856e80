use cmd_relay::Action;
use cmd_relay::MessageData;
use cmd_relay::MessageType;

const SCRIPT: &str = "echo wrapped; \"$@\"";

#[test]
fn u64_to_dec_string_exact_values() {
    assert_eq!(cmd_relay::u64_to_dec_string(0), "0");
    assert_eq!(cmd_relay::u64_to_dec_string(7), "7");
    assert_eq!(cmd_relay::u64_to_dec_string(10), "10");
    assert_eq!(cmd_relay::u64_to_dec_string(1234567890), "1234567890");
    assert_eq!(
        cmd_relay::u64_to_dec_string(u64::MAX),
        "18446744073709551615"
    );
}

#[test]
fn time_reply_is_numeric_string_with_same_tag() {
    let r = cmd_relay::time_reply(Some("t1".to_string()), 1700000000);
    assert_eq!(r.msg_type, MessageType::Time);
    assert_eq!(r.message, "1700000000");
    assert_eq!(r.meta.as_deref(), Some("t1"));
    // the time answer is one direct reply, not a stream
    assert!(!r.streaming);
}

#[test]
fn handle_time_request_yields_numeric_reply() {
    let req = MessageData {
        message: String::new(),
        msg_type: MessageType::Time,
        meta: Some("c".to_string()),
        streaming: true,
    };
    match cmd_relay::handle_request(req, SCRIPT) {
        Action::Reply(m) => {
            assert_eq!(m.msg_type, MessageType::Time);
            assert_eq!(m.meta.as_deref(), Some("c"));
            assert!(!m.streaming);
            assert!(!m.message.is_empty());
            assert!(m.message.chars().all(|c| c.is_ascii_digit()));
        },
        Action::Run { .. } => panic!("time must be answered directly"),
    }
}

#[test]
fn handle_ls_request_names_fixed_listing_command() {
    let req = MessageData {
        message: "ignored".to_string(),
        msg_type: MessageType::Ls,
        meta: Some("m".to_string()),
        streaming: true,
    };
    match cmd_relay::handle_request(req, SCRIPT) {
        Action::Run { cmd, stream_output, reply_type, meta, streaming } => {
            assert_eq!(cmd.program, "ls");
            assert_eq!(cmd.args, vec!["-a".to_string()]);
            assert!(!stream_output);
            assert_eq!(reply_type, MessageType::Ls);
            assert_eq!(meta.as_deref(), Some("m"));
            assert!(streaming);
        },
        Action::Reply(_) => panic!("ls must run a command"),
    }
}

#[test]
fn handle_sh_request_wraps_script_and_splits_words() {
    let req = MessageData {
        message: "echo hi".to_string(),
        msg_type: MessageType::Sh,
        meta: None,
        streaming: false,
    };
    match cmd_relay::handle_request(req, SCRIPT) {
        Action::Run { cmd, stream_output, reply_type, meta, streaming } => {
            assert_eq!(cmd.program, "bash");
            assert_eq!(
                cmd.args,
                vec![
                    "-c".to_string(),
                    SCRIPT.to_string(),
                    "filename".to_string(),
                    "echo".to_string(),
                    "hi".to_string()
                ]
            );
            assert!(!stream_output);
            assert_eq!(reply_type, MessageType::Sh);
            assert_eq!(meta, None);
            assert!(!streaming);
        },
        Action::Reply(_) => panic!("well-quoted sh must run a command"),
    }
}

#[test]
fn shell_words_keep_quoted_spaces_together() {
    let cmd = cmd_relay::build_shell_command(SCRIPT, "grep 'a b' \"c d\"")
        .expect("well-quoted text splits");
    assert_eq!(
        cmd.args[3..],
        ["grep".to_string(), "a b".to_string(), "c d".to_string()]
    );
}

#[test]
fn empty_command_text_adds_no_arguments() {
    let cmd = cmd_relay::build_shell_command(SCRIPT, "").expect("empty text splits");
    assert_eq!(cmd.args.len(), 3);
}

#[test]
fn malformed_quoting_is_refused_before_spawning() {
    assert!(cmd_relay::build_shell_command(SCRIPT, "echo 'unclosed").is_none());
    let req = MessageData {
        message: "echo 'unclosed".to_string(),
        msg_type: MessageType::Sh,
        meta: Some("req-5".to_string()),
        streaming: true,
    };
    match cmd_relay::handle_request(req, SCRIPT) {
        Action::Reply(m) => {
            assert_eq!(m.msg_type, MessageType::Error);
            assert_eq!(m.message, "invalid quoting in command text");
            // the error reply still carries the request's correlation tag
            assert_eq!(m.meta.as_deref(), Some("req-5"));
        },
        Action::Run { .. } => panic!("malformed quoting must never spawn"),
    }
}

#[test]
fn echo_and_error_and_empty_pass_through() {
    for k in [MessageType::Echo, MessageType::Error, MessageType::Empty] {
        let req = MessageData {
            message: "ping".to_string(),
            msg_type: k,
            meta: Some("id".to_string()),
            streaming: false,
        };
        match cmd_relay::handle_request(req, SCRIPT) {
            Action::Reply(m) => {
                assert_eq!(m.msg_type, k);
                assert_eq!(m.message, "ping");
                assert_eq!(m.meta.as_deref(), Some("id"));
                assert!(!m.streaming);
            },
            Action::Run { .. } => panic!("pass-through kinds run nothing"),
        }
    }
}

#[test]
fn spawn_failure_becomes_error_reply() {
    let r = cmd_relay::completion_reply(
        Err("No such file or directory (os error 2)".to_string()),
        MessageType::Sh,
        Some("req-3".to_string()),
        false,
    );
    assert_eq!(r.msg_type, MessageType::Error);
    assert_eq!(r.message, "No such file or directory (os error 2)");
    assert_eq!(r.meta.as_deref(), Some("req-3"));
}

#[test]
fn map_option_none_is_empty_reply_with_tag_kept() {
    let r = cmd_relay::map_option(None, MessageType::Sh, Some("x".to_string()), true);
    assert_eq!(r.msg_type, MessageType::Empty);
    assert_eq!(r.message, "");
    // the correlation tag is echoed even on the Empty reply
    assert_eq!(r.meta.as_deref(), Some("x"));
    assert!(r.streaming);
}

#[test]
fn streamed_completion_keeps_the_tag() {
    let r = cmd_relay::completion_reply(
        Ok(None),
        MessageType::Sh,
        Some("req-9".to_string()),
        true,
    );
    assert_eq!(r.msg_type, MessageType::Empty);
    assert_eq!(r.meta.as_deref(), Some("req-9"));
}

#[test]
fn chunk_message_joins_lines_under_the_tag() {
    let chunk = vec!["a".to_string(), "b c".to_string()];
    let m = cmd_relay::chunk_message(&chunk, Some("req-4".to_string()));
    assert_eq!(m.message, "a\nb c");
    assert_eq!(m.msg_type, MessageType::Echo);
    assert_eq!(m.meta.as_deref(), Some("req-4"));
    assert!(m.streaming);
    assert_eq!(
        m.encode(),
        "{\"message\":\"a\\nb c\",\"type\":\"echo\",\"meta\":\"req-4\",\"streaming\":true}"
    );
}

#[test]
fn map_option_some_carries_text_kind_and_tag() {
    let r = cmd_relay::map_option(
        Some("out".to_string()),
        MessageType::Ls,
        Some("x".to_string()),
        false,
    );
    assert_eq!(r.msg_type, MessageType::Ls);
    assert_eq!(r.message, "out");
    assert_eq!(r.meta.as_deref(), Some("x"));
    assert!(!r.streaming);
}

#[test]
fn sh_request_round_trip_reply_frame() {
    // the request decodes, names the wrapped command, and the collected
    // output comes back as an sh-kind frame
    let req = cmd_relay::decode_frame(
        "{\"type\":\"sh\",\"message\":\"echo hi\",\"streaming\":false}",
    )
    .expect("request should decode");
    let (reply_type, meta, streaming) = match cmd_relay::handle_request(req, SCRIPT) {
        Action::Run { reply_type, meta, streaming, .. } => (reply_type, meta, streaming),
        Action::Reply(_) => panic!("sh must run"),
    };
    let reply = cmd_relay::completion_reply(Ok(Some("hi".to_string())), reply_type, meta, streaming);
    assert_eq!(
        reply.encode(),
        "{\"message\":\"hi\",\"type\":\"sh\",\"meta\":null,\"streaming\":false}"
    );
}
