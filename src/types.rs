use vstd::prelude::*;

verus! {

/// The kind of failure a request can end in.
#[derive(Clone, Copy, Debug, PartialEq, Eq, Structural)]
pub enum ErrorKind {
    /// A bad address, or a socket type that this platform lacks.
    InvalidClientConfig,
    /// The server did not answer `AUTH` with `OK`.
    AuthenticationFailed,
    /// The server refused a request, or refused to switch database.
    ResponseError,
    /// The transport failed while reading, writing or shutting down.
    IoError,
    /// The transport is gone: the peer closed it, or the driver has exited.
    ConnectionDropped,
    /// The reply stream could not be decoded.
    DecodeError,
}

} // verus!

verus! {

/// An error, with its kind and a line that describes it.
#[derive(Clone, Debug, PartialEq, Eq)]
pub struct RedisError {
    pub kind: ErrorKind,
    pub detail: String,
}

impl RedisError {
    pub fn new(kind: ErrorKind, detail: &str) -> (r: RedisError)
        ensures
            r.kind == kind,
            r.detail@ == detail@,
    {
        RedisError { kind, detail: detail.to_owned() }
    }

    /// The error that stands for a driver that has gone away: the pipe to it
    /// is broken.
    pub fn broken_pipe() -> (r: RedisError)
        ensures
            r.kind == ErrorKind::ConnectionDropped,
    {
        RedisError::new(ErrorKind::ConnectionDropped, "broken pipe")
    }

    pub fn kind(&self) -> (r: ErrorKind)
        ensures
            r == self.kind,
    {
        self.kind
    }

    pub open spec fn spec_is_io_error(&self) -> bool {
        self.kind == ErrorKind::IoError || self.kind == ErrorKind::ConnectionDropped
    }

    pub open spec fn spec_is_connection_dropped(&self) -> bool {
        self.kind == ErrorKind::ConnectionDropped
    }

    /// Whether the transport failed; a lost connection is such a failure.
    pub fn is_io_error(&self) -> (r: bool)
        ensures
            r == self.spec_is_io_error(),
    {
        self.kind == ErrorKind::IoError || self.kind == ErrorKind::ConnectionDropped
    }

    /// Whether the connection is gone: closed by the peer, or its driver
    /// has exited.
    pub fn is_connection_dropped(&self) -> (r: bool)
        ensures
            r == self.spec_is_connection_dropped(),
    {
        self.kind == ErrorKind::ConnectionDropped
    }
}

/// A decoded reply.
#[derive(Debug, PartialEq, Eq)]
pub enum Value {
    Nil,
    Int(i64),
    Data(Vec<u8>),
    Bulk(Vec<Value>),
    Status(String),
    Okay,
}

impl Value {
    pub open spec fn spec_is_okay(&self) -> bool {
        self is Okay
    }

    /// Whether the reply is the plain `OK` status.
    pub fn is_okay(&self) -> (r: bool)
        ensures
            r == self.spec_is_okay(),
    {
        matches!(self, Value::Okay)
    }
}

/// Where the server listens.
#[derive(Clone, Debug, PartialEq, Eq)]
pub enum ConnectionAddr {
    /// A host name or address, and a port.
    Tcp(String, u16),
    /// The path of a local stream socket.
    Unix(String),
}

/// What is needed to open, and to reopen, a connection.
#[derive(Clone, Debug, PartialEq, Eq)]
pub struct ConnectionInfo {
    pub addr: ConnectionAddr,
    /// The database to select; zero keeps the server's default.
    pub db: i64,
    /// The password to authenticate with, if any.
    pub passwd: Option<String>,
}

} // verus!
