use quix::colossus::{
    assemble_payload, categorize_debug_level, classify, classify_decoded, decode_event, is_signal,
    match_event, Consumer, EventPayload, RemoteEvent, Severity, StreamAction, StreamState,
};
use quix::json::JsonProbe;
use quix::routes::Channel;

fn log_of(action: StreamAction) -> (Severity, String) {
    match action {
        StreamAction::Log(severity, text) => (severity, text),
        other => panic!("expected a log action, got {:?}", other),
    }
}

#[test]
fn ping_is_not_dispatched() {
    assert!(matches!(classify("ping\n"), StreamAction::Ignore));
    assert!(matches!(classify("ping"), StreamAction::Ignore));
}

#[test]
fn interrupted_link_is_reported() {
    assert!(matches!(classify("link_interrupted"), StreamAction::LinkInterrupted));
    assert!(matches!(classify("link_interrupted\n"), StreamAction::LinkInterrupted));
}

#[test]
fn initial_link_required_triggers_one_full_sync() {
    let data = "{\"body\":{\"code\":\"initial_link_required\"},\"level\":\"info\"}\n";
    assert!(matches!(classify(data), StreamAction::FullSync));
    assert!(matches!(classify("...initial_link_required..."), StreamAction::FullSync));
}

#[test]
fn generic_error_surfaces_the_message() {
    let data = "{\"body\":{\"code\":\"generic_error\",\"message\":\"disk full\"}}\n";
    match classify(data) {
        StreamAction::RemoteError(message) => assert_eq!(message, "disk full"),
        other => panic!("unexpected action {:?}", other),
    }
    let without = "{\"body\":{\"code\":\"generic_error\"}}\n";
    assert!(matches!(classify(without), StreamAction::ParseError));
}

#[test]
fn malformed_json_is_a_parse_error_and_keeps_the_stream() {
    assert!(matches!(classify("{not json"), StreamAction::ParseError));
    let mut consumer = Consumer::new();
    let event = RemoteEvent { channel: Channel::Logs, raw_data: "{not json".to_string() };
    let action = consumer.receive(&event);
    assert!(matches!(action, StreamAction::ParseError));
    assert_eq!(consumer.state(Channel::Logs), StreamState::Open);
    let next = RemoteEvent {
        channel: Channel::Logs,
        raw_data: "{\"body\":{\"message\":\"still here\"}}".to_string(),
    };
    assert_eq!(log_of(consumer.receive(&next)), (Severity::Info, "still here".to_string()));
}

#[test]
fn payload_without_body_is_a_parse_error() {
    assert!(matches!(classify("{\"level\":\"info\"}"), StreamAction::ParseError));
    assert!(matches!(classify("{\"body\":3}"), StreamAction::ParseError));
    assert!(matches!(classify("{\"body\":{\"message\":7}}"), StreamAction::ParseError));
    assert!(matches!(classify("[1,2]"), StreamAction::ParseError));
}

#[test]
fn outer_level_wins_over_body_level() {
    let data = "{\"level\":\"error\",\"body\":{\"level\":\"warning\",\"message\":\"m\"}}";
    assert_eq!(log_of(classify(data)), (Severity::Error, "m".to_string()));
    let inner = "{\"body\":{\"level\":\"warning\",\"message\":\"m\"}}";
    assert_eq!(log_of(classify(inner)), (Severity::Warn, "m".to_string()));
    let none = "{\"level\":null,\"body\":{\"message\":\"m\"}}";
    assert_eq!(log_of(classify(none)), (Severity::Info, "m".to_string()));
}

#[test]
fn message_wins_over_msg() {
    let both = "{\"body\":{\"msg\":\"short\",\"message\":\"long\"}}";
    assert_eq!(log_of(classify(both)), (Severity::Info, "long".to_string()));
    let only_msg = "{\"body\":{\"msg\":\"short\"}}";
    assert_eq!(log_of(classify(only_msg)), (Severity::Info, "short".to_string()));
    let neither = "{\"body\":{}}";
    assert!(matches!(classify(neither), StreamAction::Ignore));
}

#[test]
fn debug_and_trace_messages_are_sorted_by_their_first_character() {
    let bracket = "{\"level\":\"debug\",\"body\":{\"message\":\"[builder] step\"}}";
    assert_eq!(log_of(classify(bracket)), (Severity::Trace, "[builder] step".to_string()));
    let plain = "{\"level\":\"trace\",\"body\":{\"message\":\"step\"}}";
    assert_eq!(log_of(classify(plain)), (Severity::Debug, "step".to_string()));
    assert_eq!(categorize_debug_level("[x"), Severity::Trace);
    assert_eq!(categorize_debug_level("x["), Severity::Debug);
    assert_eq!(categorize_debug_level(""), Severity::Debug);
}

#[test]
fn unknown_level_sends_the_raw_data_to_trace() {
    let data = "{\"level\":\"verbose\",\"body\":{\"message\":\"m\"}}";
    assert_eq!(log_of(classify(data)), (Severity::Trace, data.to_string()));
}

#[test]
fn escaped_text_is_unescaped_by_the_parser() {
    let data = "{\"body\":{\"message\":\"a\\nb \\u0041\"}}";
    assert_eq!(log_of(classify(data)), (Severity::Info, "a\nb A".to_string()));
}

#[test]
fn decoding_reads_the_four_members() {
    let data = "{\"level\":\"info\",\"body\":{\"level\":\"debug\",\"msg\":\"a\",\"message\":\"b\"}}";
    let payload = decode_event(data).unwrap();
    assert_eq!(payload.level.as_deref(), Some("info"));
    assert_eq!(payload.body_level.as_deref(), Some("debug"));
    assert_eq!(payload.msg.as_deref(), Some("a"));
    assert_eq!(payload.message.as_deref(), Some("b"));
    assert!(decode_event("nope").is_none());
}

#[test]
fn payload_is_assembled_from_probes() {
    let payload = assemble_payload(
        JsonProbe::Object,
        JsonProbe::Absent,
        JsonProbe::Null,
        JsonProbe::Text("m".to_string()),
        JsonProbe::Absent,
    )
    .unwrap();
    assert_eq!(payload.level, None);
    assert_eq!(payload.body_level, None);
    assert_eq!(payload.message.as_deref(), Some("m"));
    assert_eq!(payload.msg, None);
    assert!(assemble_payload(
        JsonProbe::Absent,
        JsonProbe::Absent,
        JsonProbe::Absent,
        JsonProbe::Absent,
        JsonProbe::Absent
    )
    .is_none());
    assert!(assemble_payload(
        JsonProbe::Object,
        JsonProbe::Other,
        JsonProbe::Absent,
        JsonProbe::Absent,
        JsonProbe::Absent
    )
    .is_none());
    assert!(assemble_payload(
        JsonProbe::Object,
        JsonProbe::Absent,
        JsonProbe::Absent,
        JsonProbe::Absent,
        JsonProbe::Malformed
    )
    .is_none());
}

#[test]
fn classification_of_a_given_payload() {
    let payload = EventPayload {
        level: Some("warning".to_string()),
        body_level: None,
        message: None,
        msg: Some("m".to_string()),
    };
    assert_eq!(log_of(match_event("raw", payload.clone())), (Severity::Warn, "m".to_string()));
    assert_eq!(
        log_of(classify_decoded("raw", Some(payload))),
        (Severity::Warn, "m".to_string())
    );
    assert!(matches!(classify_decoded("raw", None), StreamAction::ParseError));
    assert!(matches!(classify_decoded("ping\n", None), StreamAction::Ignore));
}

#[test]
fn signal_words_ignore_one_line_end() {
    assert!(is_signal("ping\n", "ping"));
    assert!(is_signal("ping", "ping"));
    assert!(!is_signal("ping\n\n", "ping"));
    assert!(!is_signal("pin", "ping"));
    assert!(!is_signal(" ping", "ping"));
    assert!(is_signal("", ""));
}

#[test]
fn interrupted_link_closes_only_its_own_connection() {
    let mut consumer = Consumer::new();
    let event = RemoteEvent { channel: Channel::Build, raw_data: "link_interrupted\n".to_string() };
    assert!(matches!(consumer.receive(&event), StreamAction::LinkInterrupted));
    assert_eq!(consumer.state(Channel::Build), StreamState::Closed);
    assert_eq!(consumer.state(Channel::Status), StreamState::Open);
    assert_eq!(consumer.state(Channel::Logs), StreamState::Open);
    let late = RemoteEvent {
        channel: Channel::Build,
        raw_data: "{\"body\":{\"message\":\"late\"}}".to_string(),
    };
    assert!(matches!(consumer.receive(&late), StreamAction::Ignore));
    let other = RemoteEvent {
        channel: Channel::Status,
        raw_data: "{\"body\":{\"message\":\"ok\"}}".to_string(),
    };
    assert_eq!(log_of(consumer.receive(&other)), (Severity::Info, "ok".to_string()));
}
