use resp_aio::pipeline::{PipelineSink, SUBMISSION_CAPACITY};
use resp_aio::types::{ErrorKind, RedisError, Value};
use std::sync::mpsc;

fn accept(sink: &mut PipelineSink<u32, Value, RedisError>, slot: u32, count: usize) {
    let slot = sink.begin_send(slot).unwrap_or_else(|_| panic!("nothing stashed"));
    assert!(sink.start_send(slot, count, Ok(())).is_ok());
}

fn status(s: &str) -> Value {
    Value::Status(s.to_string())
}

#[test]
fn single_command_gets_its_reply() {
    let mut sink = PipelineSink::new();
    accept(&mut sink, 7, 1);
    let d = sink.send_result(Ok(status("PONG")));
    assert_eq!(d, Some((7, Ok(vec![status("PONG")]))));
    assert!(!sink.has_in_flight());
}

#[test]
fn interleaved_submissions_are_paired_in_order() {
    let mut sink = PipelineSink::new();
    accept(&mut sink, 1, 1);
    accept(&mut sink, 2, 1);
    // Both replies arrive in one batch and are fed back to back.
    let batch = vec![Value::Int(10), Value::Int(20)];
    let mut out = Vec::new();
    for f in batch {
        out.push(sink.send_result(Ok(f)));
    }
    assert_eq!(out, vec![Some((1, Ok(vec![Value::Int(10)]))), Some((2, Ok(vec![Value::Int(20)])))]);
}

#[test]
fn replies_follow_counts_in_order() {
    let mut sink = PipelineSink::new();
    accept(&mut sink, 1, 2);
    accept(&mut sink, 2, 1);
    accept(&mut sink, 3, 3);
    let mut out = Vec::new();
    for k in 1..=6 {
        if let Some(d) = sink.send_result(Ok(Value::Int(k))) {
            out.push(d);
        }
    }
    assert_eq!(
        out,
        vec![
            (1, Ok(vec![Value::Int(1), Value::Int(2)])),
            (2, Ok(vec![Value::Int(3)])),
            (3, Ok(vec![Value::Int(4), Value::Int(5), Value::Int(6)])),
        ]
    );
    assert!(!sink.has_in_flight());
}

#[test]
fn each_slot_is_filled_once() {
    let mut sink = PipelineSink::new();
    accept(&mut sink, 1, 1);
    accept(&mut sink, 2, 2);
    let mut slots = Vec::new();
    for k in 0..5 {
        if let Some((s, _)) = sink.send_result(Ok(Value::Int(k))) {
            slots.push(s);
        }
    }
    assert_eq!(slots, vec![1, 2]);
}

#[test]
fn reply_with_nobody_waiting_is_dropped() {
    let mut sink: PipelineSink<u32, Value, RedisError> = PipelineSink::new();
    assert_eq!(sink.send_result(Ok(Value::Nil)), None);
    accept(&mut sink, 4, 1);
    assert_eq!(sink.send_result(Ok(Value::Okay)), Some((4, Ok(vec![Value::Okay]))));
}

#[test]
fn inbound_error_completes_the_head_at_once() {
    let mut sink = PipelineSink::new();
    accept(&mut sink, 1, 3);
    accept(&mut sink, 2, 1);
    assert_eq!(sink.send_result(Ok(Value::Int(1))), None);
    let e = RedisError::new(ErrorKind::DecodeError, "bad frame");
    assert_eq!(sink.send_result(Err(e.clone())), Some((1, Err(e))));
    assert_eq!(sink.send_result(Ok(Value::Int(2))), Some((2, Ok(vec![Value::Int(2)]))));
}

#[test]
fn stashed_readiness_error_goes_to_next_submitter() {
    let mut sink: PipelineSink<u32, Value, RedisError> = PipelineSink::new();
    sink.poll_ready(Ok(()));
    let e = RedisError::new(ErrorKind::IoError, "write failed");
    sink.poll_ready(Err(e.clone()));
    assert_eq!(sink.begin_send(9), Err((9, e)));
    assert_eq!(sink.begin_send(10), Ok(10));
    assert!(!sink.has_in_flight());
}

#[test]
fn refused_write_fails_the_submission() {
    let mut sink: PipelineSink<u32, Value, RedisError> = PipelineSink::new();
    let e = RedisError::new(ErrorKind::IoError, "closed");
    assert_eq!(sink.start_send(3, 1, Err(e.clone())), Err((3, e)));
    assert!(!sink.has_in_flight());
}

#[test]
fn cancelled_waiter_does_not_shift_replies() {
    type Slot = mpsc::Sender<Result<Vec<Value>, RedisError>>;
    let mut sink: PipelineSink<Slot, Value, RedisError> = PipelineSink::new();
    let (tx_a, rx_a) = mpsc::channel();
    let (tx_b, rx_b) = mpsc::channel();
    for tx in [tx_a, tx_b] {
        let tx = sink.begin_send(tx).unwrap_or_else(|_| panic!("nothing stashed"));
        assert!(sink.start_send(tx, 1, Ok(())).is_ok());
    }
    drop(rx_a);
    for f in [Value::Int(1), Value::Int(2)] {
        if let Some((slot, reply)) = sink.send_result(Ok(f)) {
            let _ = slot.send(reply);
        }
    }
    assert_eq!(rx_b.recv().unwrap(), Ok(vec![Value::Int(2)]));
}

#[test]
fn shutdown_drops_unfilled_slots() {
    type Slot = mpsc::Sender<Result<Vec<Value>, RedisError>>;
    let mut sink: PipelineSink<Slot, Value, RedisError> = PipelineSink::new();
    let (tx, rx) = mpsc::channel();
    assert!(sink.start_send(tx, 1, Ok(())).is_ok());
    drop(sink);
    assert!(rx.recv().is_err());
}

#[test]
fn submission_channel_holds_fifty() {
    assert_eq!(SUBMISSION_CAPACITY, 50);
    let (tx, _rx) = tokio::sync::mpsc::channel::<u32>(SUBMISSION_CAPACITY);
    for k in 0..50 {
        assert!(tx.try_send(k).is_ok());
    }
    assert!(matches!(tx.try_send(50), Err(tokio::sync::mpsc::error::TrySendError::Full(50))));
}

#[test]
fn stashed_error_fails_start_send_even_after_a_write() {
    let mut sink: PipelineSink<u32, Value, RedisError> = PipelineSink::new();
    let e = RedisError::new(ErrorKind::IoError, "not ready");
    sink.poll_ready(Err(e.clone()));
    assert_eq!(sink.start_send(5, 1, Ok(())), Err((5, e)));
    assert!(!sink.has_in_flight());
    assert!(sink.start_send(6, 1, Ok(())).is_ok());
    assert!(sink.has_in_flight());
}

#[test]
fn transport_errors_close_the_driver() {
    let mut sink: PipelineSink<u32, Value, RedisError> = PipelineSink::new();
    assert!(!sink.is_closed());
    accept(&mut sink, 1, 1);
    assert_eq!(sink.send_result(Ok(Value::Okay)), Some((1, Ok(vec![Value::Okay]))));
    assert!(!sink.is_closed());
    let _ = sink.send_result(Err(RedisError::new(ErrorKind::DecodeError, "bad")));
    assert!(sink.is_closed());

    let mut other: PipelineSink<u32, Value, RedisError> = PipelineSink::new();
    other.poll_ready(Ok(()));
    assert!(!other.is_closed());
    other.poll_ready(Err(RedisError::new(ErrorKind::IoError, "reset")));
    assert!(other.is_closed());
}

#[test]
fn partly_answered_requests_keep_waiting_in_order() {
    let mut sink = PipelineSink::new();
    accept(&mut sink, 1, 2);
    accept(&mut sink, 2, 3);
    let mut out = Vec::new();
    for k in 1..=3 {
        if let Some(d) = sink.send_result(Ok(Value::Int(k))) {
            out.push(d);
        }
    }
    assert_eq!(out, vec![(1, Ok(vec![Value::Int(1), Value::Int(2)]))]);
    assert!(sink.has_in_flight());
    assert_eq!(sink.send_result(Ok(Value::Int(4))), None);
    assert_eq!(
        sink.send_result(Ok(Value::Int(5))),
        Some((2, Ok(vec![Value::Int(3), Value::Int(4), Value::Int(5)])))
    );
    assert!(!sink.has_in_flight());
}
