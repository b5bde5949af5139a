//! The writer of messages.

use std::io;

use wispr_flow_helper::ipc::{flush, goes_on, send, task_for, BarrierOutcome, FlushError, Task};
use wispr_flow_helper::ipc::WriterMessage;
use wispr_flow_helper::json::Json;
use wispr_flow_helper::proto::encode;

#[test]
fn send_envelope_received() {
    let v = Json::member("test", Json::Bool(true));
    match task_for(&WriterMessage::Envelope(v)) {
        Task::Write(frame) => assert_eq!(frame, b"{\n  \"test\": true\n}|".to_vec()),
        other => panic!("expected envelope, got {other:?}"),
    }
    assert_eq!(send(true), Ok(()));
}

#[test]
fn flush_completes_when_writer_acks() {
    let result = flush(BarrierOutcome::<io::Error>::Reached(Ok(())));
    assert!(result.is_ok());
}

#[test]
fn flush_returns_error_when_writer_reports_error() {
    let reported = io::Error::new(io::ErrorKind::BrokenPipe, "write failed");
    let result = flush(BarrierOutcome::Reached(Err(reported)));
    assert!(result.is_err());
    match result {
        Err(FlushError::Writer(e)) => {
            assert_eq!(e.kind(), io::ErrorKind::BrokenPipe);
            assert_eq!(e.to_string(), "write failed");
        }
        other => panic!("expected the writer's error, got {other:?}"),
    }
}

#[test]
fn flush_times_out_when_writer_gone() {
    assert!(flush(BarrierOutcome::<io::Error>::NotTaken).is_err());
    let gone: Result<(), FlushError<u8>> = flush(BarrierOutcome::NotTaken);
    assert_eq!(gone, Err(FlushError::BrokenPipe("fd3 writer thread gone".to_string())));
    let late: Result<(), FlushError<u8>> = flush(BarrierOutcome::TimedOut);
    assert_eq!(late, Err(FlushError::TimedOut("flush barrier timed out".to_string())));
    let stopped: Result<(), FlushError<u8>> = flush(BarrierOutcome::Stopped);
    assert_eq!(
        stopped,
        Err(FlushError::BrokenPipe("fd3 writer stopped before flush barrier".to_string()))
    );
    let failed = flush(BarrierOutcome::Reached(Err(7u8)));
    assert_eq!(failed, Err(FlushError::Writer(7)));
}

#[test]
fn send_fails_when_writer_gone() {
    assert!(send(false).is_err());
    assert_eq!(send(false), Err("fd3 writer thread gone".to_string()));
}

#[test]
fn writer_stops_only_where_a_frame_is_lost() {
    let v = Json::member("a", Json::unsigned(1));
    let frame = encode(&v).unwrap();
    let write = task_for(&WriterMessage::Envelope(v));
    assert_eq!(write, Task::Write(frame));
    assert!(goes_on(&write, true));
    assert!(!goes_on(&write, false));
    let barrier = task_for(&WriterMessage::Barrier);
    assert_eq!(barrier, Task::Flush);
    assert!(goes_on(&barrier, false));
    let long = Json::text(&"x".repeat(40_000));
    let skip = task_for(&WriterMessage::Envelope(long));
    assert_eq!(
        skip,
        Task::Skip("IPC message too long: 40002 > 30000".to_string())
    );
    assert!(goes_on(&skip, false));
}

/// Runs the writer over messages; the writes with these numbers fail.
fn write_all(messages: &[WriterMessage], failing: &[usize]) -> (Vec<Vec<u8>>, usize) {
    let mut written = Vec::new();
    let mut barriers = 0;
    for (i, message) in messages.iter().enumerate() {
        let task = task_for(message);
        let succeeded = !failing.contains(&i);
        match &task {
            Task::Write(frame) if succeeded => written.push(frame.clone()),
            Task::Flush => barriers += 1,
            _ => {}
        }
        if !goes_on(&task, succeeded) {
            break;
        }
    }
    (written, barriers)
}

#[test]
fn barrier_stands_behind_all_before() {
    let doc = |n: u64| Json::member("n", Json::unsigned(n));
    let messages = vec![
        WriterMessage::Envelope(doc(1)),
        WriterMessage::Envelope(Json::text(&"x".repeat(40_000))),
        WriterMessage::Envelope(doc(2)),
        WriterMessage::Barrier,
        WriterMessage::Envelope(doc(3)),
        WriterMessage::Barrier,
    ];
    let frame = |n: u64| encode(&doc(n)).unwrap();
    assert_eq!(write_all(&messages, &[]), (vec![frame(1), frame(2), frame(3)], 2));
    assert_eq!(write_all(&messages, &[3]), (vec![frame(1), frame(2), frame(3)], 2));
    assert_eq!(write_all(&messages, &[4]), (vec![frame(1), frame(2)], 1));
    assert_eq!(write_all(&messages, &[2]), (vec![frame(1)], 0));
}
