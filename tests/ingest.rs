use serde_json::Value;
use uds_ingest::{
    decode_payload, ingest, ConnectionTask, IngestError, IngestOutcome, ReadEvent,
};

fn object_a1() -> Value {
    let mut m = serde_json::Map::new();
    m.insert("a".to_string(), Value::from(1));
    Value::Object(m)
}

fn data(bytes: &[u8]) -> ReadEvent {
    ReadEvent::Data(bytes.to_vec())
}

#[test]
fn object_then_close_is_decoded() {
    let r = ingest(&vec![data(b"{\"a\":1}"), ReadEvent::End]);
    match r {
        Some(IngestOutcome::Decoded(v)) => assert_eq!(v, object_a1()),
        other => panic!("unexpected outcome: {:?}", other),
    }
}

#[test]
fn not_json_then_close_is_parse_failure() {
    let r = ingest(&vec![data(b"not json"), ReadEvent::End]);
    assert!(matches!(r, Some(IngestOutcome::Failed(IngestError::Parse(_)))));
}

#[test]
fn empty_connection_is_parse_failure() {
    let r = ingest(&vec![ReadEvent::End]);
    assert!(matches!(r, Some(IngestOutcome::Failed(IngestError::Parse(_)))));
}

#[test]
fn empty_chunks_then_close_is_parse_failure() {
    let r = ingest(&vec![data(b""), data(b""), ReadEvent::End]);
    assert!(matches!(r, Some(IngestOutcome::Failed(IngestError::Parse(_)))));
}

#[test]
fn document_split_over_reads_is_decoded() {
    let r = ingest(&vec![data(b"{\"a\""), data(b""), data(b":1}"), ReadEvent::End]);
    match r {
        Some(IngestOutcome::Decoded(v)) => assert_eq!(v, object_a1()),
        other => panic!("unexpected outcome: {:?}", other),
    }
}

#[test]
fn incomplete_document_is_parse_failure() {
    let r = ingest(&vec![data(b"{\"a\":"), ReadEvent::End]);
    assert!(matches!(r, Some(IngestOutcome::Failed(IngestError::Parse(_)))));
}

#[test]
fn trailing_text_is_parse_failure() {
    let r = ingest(&vec![data(b"{\"a\":1} x"), ReadEvent::End]);
    assert!(matches!(r, Some(IngestOutcome::Failed(IngestError::Parse(_)))));
}

#[test]
fn reset_mid_write_is_read_failure() {
    let r = ingest(&vec![
        data(b"{\"a\":"),
        ReadEvent::Error("connection reset by peer".to_string()),
    ]);
    match r {
        Some(IngestOutcome::Failed(IngestError::Read(m))) => {
            assert_eq!(m, "connection reset by peer")
        }
        other => panic!("unexpected outcome: {:?}", other),
    }
}

#[test]
fn read_failure_after_complete_document_is_read_failure() {
    let r = ingest(&vec![data(b"{\"a\":1}"), ReadEvent::Error("reset".to_string())]);
    assert!(matches!(r, Some(IngestOutcome::Failed(IngestError::Read(_)))));
}

#[test]
fn events_after_the_end_are_not_read() {
    let r = ingest(&vec![
        data(b"[1,2]"),
        ReadEvent::End,
        data(b"garbage"),
        ReadEvent::Error("late".to_string()),
    ]);
    match r {
        Some(IngestOutcome::Decoded(v)) => {
            assert_eq!(v, Value::Array(vec![Value::from(1), Value::from(2)]))
        }
        other => panic!("unexpected outcome: {:?}", other),
    }
}

#[test]
fn open_connection_reports_nothing() {
    assert!(ingest(&vec![data(b"{\"a\":1}")]).is_none());
    assert!(ingest(&vec![]).is_none());
}

#[test]
fn interleaved_connections_keep_their_own_bytes() {
    let mut first = ConnectionTask::new();
    let mut second = ConnectionTask::new();
    first.on_data(b"{\"a\"");
    second.on_data(b"[true,");
    first.on_data(b":1}");
    second.on_data(b"null]");
    match first.on_end() {
        IngestOutcome::Decoded(v) => assert_eq!(v, object_a1()),
        other => panic!("unexpected outcome: {:?}", other),
    }
    match second.on_end() {
        IngestOutcome::Decoded(v) => {
            assert_eq!(v, Value::Array(vec![Value::Bool(true), Value::Null]))
        }
        other => panic!("unexpected outcome: {:?}", other),
    }
}

#[test]
fn task_error_reports_its_message() {
    let mut t = ConnectionTask::new();
    t.on_data(b"{}");
    match t.on_error("broken pipe".to_string()) {
        IngestOutcome::Failed(IngestError::Read(m)) => assert_eq!(m, "broken pipe"),
        other => panic!("unexpected outcome: {:?}", other),
    }
}

#[test]
fn decode_payload_reads_scalars_and_whitespace() {
    match decode_payload(b"  \"hi\"\n") {
        IngestOutcome::Decoded(v) => assert_eq!(v, Value::String("hi".to_string())),
        other => panic!("unexpected outcome: {:?}", other),
    }
    match decode_payload(b"-12") {
        IngestOutcome::Decoded(v) => assert_eq!(v, Value::from(-12)),
        other => panic!("unexpected outcome: {:?}", other),
    }
    assert!(matches!(
        decode_payload(b"   "),
        IngestOutcome::Failed(IngestError::Parse(_))
    ));
}
