use nekocode::sse::{check_event_stream_response, is_event_stream, parse_line, EventBuffer, EventSourceError};

#[test]
fn parse_line_properly() {
    let (field, value) = parse_line("event: message");
    assert_eq!(field, "event");
    assert_eq!(value, "message");

    let (field, value) = parse_line("non-standard field");
    assert_eq!(field, "non-standard field");
    assert_eq!(value, "");

    let (field, value) = parse_line("data:data with : inside");
    assert_eq!(field, "data");
    assert_eq!(value, "data with : inside");
}

#[test]
fn is_event_stream_accept_valid_values() {
    assert!(is_event_stream(b"text/event-stream"));
    assert!(is_event_stream(b"text/event-stream; charset=utf-8"));
    assert!(is_event_stream(b"   TEXT/event-stream    ; charset=utf-8"));
}

#[test]
fn is_event_stream_reject_invalid_values() {
    assert!(!is_event_stream(b"plain/text"));
    assert!(!is_event_stream(b"text/event-but-not-realy"));
}

#[test]
fn blank_line_dispatches_event_once() {
    let mut buf = EventBuffer::new();
    assert!(buf.feed_line("event: update").is_none());
    assert!(buf.feed_line("data: first").is_none());
    assert!(buf.feed_line("data: second").is_none());
    let ev = buf.feed_line("").expect("event at blank line");
    assert_eq!(ev.event_type, "update");
    assert_eq!(ev.data, "first\nsecond");
    assert!(buf.feed_line("").is_none());
}

#[test]
fn event_without_data_is_not_dispatched() {
    let mut buf = EventBuffer::new();
    assert!(buf.feed_line("event: ping").is_none());
    assert!(buf.feed_line("").is_none());
}

#[test]
fn response_status_and_content_type_are_checked() {
    assert!(check_event_stream_response(200, Some(b"text/event-stream")).is_ok());
    assert!(matches!(
        check_event_stream_response(500, Some(b"text/event-stream")),
        Err(EventSourceError::BadStatus(500))
    ));
    assert!(matches!(
        check_event_stream_response(200, Some(b"application/json")),
        Err(EventSourceError::BadContentType(_))
    ));
    assert!(matches!(
        check_event_stream_response(200, None),
        Err(EventSourceError::BadContentType(None))
    ));
}

#[test]
fn lines_of_a_stream_give_its_events_in_order() {
    let mut buffer = EventBuffer::new();
    let lines: Vec<String> = vec![
        "event: ping\r\n".into(),
        "\n".into(),
        "id: 7\n".into(),
        "retry: 1500\n".into(),
        "data: first\n".into(),
        "data: second\n".into(),
        "\n".into(),
        ": a comment\n".into(),
        "data: third\n".into(),
        "\r\n".into(),
    ];
    let events = buffer.feed_lines(&lines);
    assert_eq!(events.len(), 2);
    assert_eq!(events[0].event_type, "message");
    assert_eq!(events[0].data, "first\nsecond");
    assert_eq!(events[0].last_event_id.as_deref(), Some("7"));
    assert_eq!(events[0].retry, Some(1500));
    assert_eq!(events[1].data, "third");
    assert_eq!(events[1].last_event_id.as_deref(), Some("7"));
}
