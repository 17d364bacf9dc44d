use resp_aio::connection::ConnectionLike;
use resp_aio::manager::{
    reconnect_after_command, reconnect_failed, reconnect_on_connect_error, ConnectionManager, ConnectionSlot,
};
use resp_aio::types::{ConnectionAddr, ConnectionInfo, ErrorKind, RedisError, Value};

#[test]
fn concurrent_reconnects_replace_once() {
    let mut slot = ConnectionSlot::new("first");
    let seen = slot.generation();
    assert!(slot.replace_if_current(seen, "second"));
    assert!(!slot.replace_if_current(seen, "third"));
    assert_eq!(*slot.current(), "second");
    assert_ne!(slot.generation(), seen);
    assert!(slot.replace_if_current(slot.generation(), "fourth"));
    assert_eq!(*slot.current(), "fourth");
}

#[test]
fn io_failure_on_connect_triggers_reconnect() {
    assert!(reconnect_on_connect_error(&RedisError::new(ErrorKind::IoError, "refused")));
    assert!(reconnect_on_connect_error(&RedisError::broken_pipe()));
    assert!(!reconnect_on_connect_error(&RedisError::new(ErrorKind::AuthenticationFailed, "no")));
}

#[test]
fn io_failure_after_command_triggers_reconnect() {
    let dropped: Result<Value, RedisError> = Err(RedisError::broken_pipe());
    let io: Result<Value, RedisError> = Err(RedisError::new(ErrorKind::IoError, "timed out"));
    let server: Result<Value, RedisError> = Err(RedisError::new(ErrorKind::ResponseError, "ERR"));
    assert!(reconnect_after_command(&dropped));
    assert!(reconnect_after_command(&io));
    assert!(!reconnect_after_command(&server));
    assert!(!reconnect_after_command(&Ok(Value::Okay)));
}

#[test]
fn manager_reports_the_configured_db() {
    let info = ConnectionInfo { addr: ConnectionAddr::Unix("/tmp/redis.sock".to_string()), db: 4, passwd: None };
    let m = ConnectionManager { connection_info: info, connection: 0u8 };
    assert_eq!(m.get_db(), 4);
}

#[test]
fn failed_reconnection_keeps_the_error_kind() {
    let e = reconnect_failed(&RedisError::new(ErrorKind::IoError, "connection refused"));
    assert_eq!(e.kind, ErrorKind::IoError);
    assert_eq!(e.detail, "Reconnecting failed");
    let e = reconnect_failed(&RedisError::new(ErrorKind::AuthenticationFailed, "bad password"));
    assert_eq!(e.kind, ErrorKind::AuthenticationFailed);
}

#[test]
fn many_callers_replace_once() {
    let mut slot = ConnectionSlot::new(0u32);
    let seen = slot.generation();
    let wins: Vec<bool> = (1..=5u32).map(|k| slot.replace_if_current(seen, k)).collect();
    assert_eq!(wins, vec![true, false, false, false, false]);
    assert_eq!(*slot.current(), 1);
}
