//! What a connection decides: the handshake that a new connection runs
//! before anyone may use it, how replies to a pipeline are picked out, and
//! how the outcome of a submission reaches its caller.
use crate::types::{ConnectionInfo, ErrorKind, RedisError, Value};
use vstd::prelude::*;

verus! {

/// The capabilities shared by every kind of connection: the database that
/// it is bound to. Sending commands and pipelines is asynchronous and is
/// layered over this by the runtime glue.
pub trait ConnectionLike {
    /// The database this connection was opened with.
    spec fn spec_db(&self) -> i64;

    /// The database this connection was bound to when it was opened. The
    /// value is cached, and may be stale once the connection is lost.
    fn get_db(&self) -> (r: i64)
        ensures
            r == self.spec_db(),
    ;
}

/// A request that the handshake issues.
#[derive(Debug, PartialEq, Eq)]
pub enum HandshakeStep {
    /// `AUTH` with this password.
    Auth(String),
    /// `SELECT` this database.
    Select(i64),
}

/// How far the handshake of a new connection has come.
#[derive(Clone, Copy, Debug, PartialEq, Eq, Structural)]
pub enum HandshakeStage {
    /// `AUTH` is to be sent, or its reply awaited.
    Auth,
    /// `SELECT` is to be sent, or its reply awaited.
    Select,
    /// Every request was answered `OK`: the connection may be handed out.
    Ready,
    /// A request was refused: the connection must be discarded.
    Failed,
}

/// The stage that follows a successful `AUTH`, or that comes first when
/// there is no password.
pub open spec fn after_auth(db: i64) -> HandshakeStage {
    if db != 0 {
        HandshakeStage::Select
    } else {
        HandshakeStage::Ready
    }
}

/// The first stage of the handshake for a connection opened with `info`.
/// An empty password counts as none: `AUTH` is skipped.
pub open spec fn first_stage(info: ConnectionInfo) -> HandshakeStage {
    if info.passwd is Some && info.passwd->0@.len() > 0 {
        HandshakeStage::Auth
    } else {
        after_auth(info.db)
    }
}

/// The handshake of a new connection: `AUTH` when a non-empty password is
/// set, then
/// `SELECT` when the database is not zero, each of which must be answered
/// with `OK`. The connection is usable only once the handshake is ready; a
/// refused request makes it fail for good.
pub struct Handshake {
    passwd: Option<String>,
    db: i64,
    stage: HandshakeStage,
}

impl Handshake {
    pub fn new(info: &ConnectionInfo) -> (r: Handshake)
        ensures
            r.spec_passwd() == info.passwd,
            r.spec_db() == info.db,
            r.spec_stage() == first_stage(*info),
            r.wf(),
    {
        let passwd = match &info.passwd {
            Some(p) => Some(p.clone()),
            None => None,
        };
        let has_password = match &passwd {
            Some(p) => !p.as_str().is_empty(),
            None => false,
        };
        let stage = if has_password {
            HandshakeStage::Auth
        } else if info.db != 0 {
            HandshakeStage::Select
        } else {
            HandshakeStage::Ready
        };
        Handshake { passwd, db: info.db, stage }
    }

    /// The password given, if any.
    pub closed spec fn spec_passwd(&self) -> Option<String> {
        self.passwd
    }

    /// The database to select.
    pub closed spec fn spec_db(&self) -> i64 {
        self.db
    }

    /// How far the handshake has come.
    pub closed spec fn spec_stage(&self) -> HandshakeStage {
        self.stage
    }

    pub closed spec fn wf(&self) -> bool {
        self.stage == HandshakeStage::Auth ==> self.passwd is Some
    }

    /// How far the handshake has come.
    pub fn stage(&self) -> (r: HandshakeStage)
        ensures
            r == self.spec_stage(),
    {
        self.stage
    }

    /// The request to send next; none once the handshake is ready or has
    /// failed.
    pub fn next_step(&self) -> (r: Option<HandshakeStep>)
        requires
            self.wf(),
        ensures
            match self.spec_stage() {
                HandshakeStage::Auth => r == Some(HandshakeStep::Auth(self.spec_passwd()->0)),
                HandshakeStage::Select => r == Some(HandshakeStep::Select(self.spec_db())),
                _ => r is None,
            },
    {
        match self.stage {
            HandshakeStage::Auth => match &self.passwd {
                Some(p) => Some(HandshakeStep::Auth(p.clone())),
                None => None,
            },
            HandshakeStage::Select => Some(HandshakeStep::Select(self.db)),
            _ => None,
        }
    }

    /// Takes in the reply to the request last sent. `OK` moves on to the
    /// next stage; anything else, an error included, fails the handshake:
    /// with `AuthenticationFailed` for `AUTH`, with `ResponseError` for
    /// `SELECT`.
    pub fn on_reply(&mut self, reply: &Result<Value, RedisError>) -> (r: Result<(), RedisError>)
        requires
            old(self).wf(),
            old(self).spec_stage() == HandshakeStage::Auth || old(self).spec_stage() == HandshakeStage::Select,
        ensures
            final(self).wf(),
            final(self).spec_passwd() == old(self).spec_passwd(),
            final(self).spec_db() == old(self).spec_db(),
            r is Ok <==> (reply is Ok && reply->Ok_0.spec_is_okay()),
            r is Ok ==> final(self).spec_stage() == if old(self).spec_stage() == HandshakeStage::Auth {
                after_auth(old(self).spec_db())
            } else {
                HandshakeStage::Ready
            },
            r is Err ==> final(self).spec_stage() == HandshakeStage::Failed,
            r is Err ==> r->Err_0.kind == if old(self).spec_stage() == HandshakeStage::Auth {
                ErrorKind::AuthenticationFailed
            } else {
                ErrorKind::ResponseError
            },
    {
        let okay = match reply {
            Ok(v) => v.is_okay(),
            Err(_) => false,
        };
        if okay {
            self.stage = if self.stage == HandshakeStage::Auth && self.db != 0 {
                HandshakeStage::Select
            } else {
                HandshakeStage::Ready
            };
            Ok(())
        } else if self.stage == HandshakeStage::Auth {
            self.stage = HandshakeStage::Failed;
            Err(RedisError::new(ErrorKind::AuthenticationFailed, "Password authentication failed"))
        } else {
            self.stage = HandshakeStage::Failed;
            Err(RedisError::new(ErrorKind::ResponseError, "Redis server refused to switch database"))
        }
    }

    /// Whether every request of the handshake was answered `OK`, so that
    /// the connection may be handed out.
    pub fn is_ready(&self) -> (r: bool)
        ensures
            r == (self.spec_stage() == HandshakeStage::Ready),
    {
        self.stage == HandshakeStage::Ready
    }
}

/// The outcome of one submission to the pipeline as its caller sees it,
/// given whether the submission was queued and what came out of its reply
/// slot (`None` when the slot was dropped unfilled). `Err(None)` means that
/// the driver has shut down.
pub fn submission_outcome<I, E>(queued: bool, reply: Option<Result<Vec<I>, E>>) -> (r: Result<Vec<I>, Option<E>>)
    ensures
        !queued ==> r == Err::<Vec<I>, Option<E>>(None),
        queued ==> r == match reply {
            None => Err::<Vec<I>, Option<E>>(None),
            Some(Ok(v)) => Ok::<Vec<I>, Option<E>>(v),
            Some(Err(e)) => Err::<Vec<I>, Option<E>>(Some(e)),
        },
{
    if !queued {
        return Err(None);
    }
    match reply {
        None => Err(None),
        Some(Ok(v)) => Ok(v),
        Some(Err(e)) => Err(Some(e)),
    }
}

/// The reply to a submission that expects one: the last, and only, of the
/// replies received.
pub fn single_reply<I, E>(outcome: Result<Vec<I>, Option<E>>) -> (r: Result<I, Option<E>>)
    requires
        outcome is Ok ==> outcome->Ok_0@.len() == 1,
    ensures
        match outcome {
            Ok(v) => r == Ok::<I, Option<E>>(v@[0]),
            Err(e) => r == Err::<I, Option<E>>(e),
        },
{
    match outcome {
        Ok(mut v) => match v.pop() {
            Some(x) => Ok(x),
            None => Err(None),
        },
        Err(e) => Err(e),
    }
}

/// The error a caller of a multiplexed connection gets: the driver's own
/// error, or a broken pipe when the driver has shut down.
pub fn pipeline_error(err: Option<RedisError>) -> (r: RedisError)
    ensures
        match err {
            Some(e) => r == e,
            None => r.kind == ErrorKind::ConnectionDropped,
        },
{
    match err {
        Some(e) => e,
        None => RedisError::broken_pipe(),
    }
}

/// The replies to a pipeline with its first `offset` replies, the answers
/// to a transaction's preamble, left out.
pub fn skip_offset<I>(values: Vec<I>, offset: usize) -> (r: Vec<I>)
    requires
        offset <= values@.len(),
    ensures
        r@ == values@.skip(offset as int),
{
    let ghost all = values@;
    let mut values = values;
    let kept = values.split_off(offset);
    assert(kept@ =~= all.skip(offset as int));
    kept
}

} // verus!

verus! {

/// Gathers the replies to a pipeline read one by one from a connection: the
/// first `offset` replies are read and dropped, the next `count` are kept.
pub struct ReplyCollector<I> {
    offset: usize,
    count: usize,
    seen: usize,
    kept: Vec<I>,
    frames: Ghost<Seq<I>>,
}

impl<I> ReplyCollector<I> {
    /// Every reply taken in so far, in order.
    pub closed spec fn frames(&self) -> Seq<I> {
        self.frames@
    }

    pub closed spec fn spec_offset(&self) -> nat {
        self.offset as nat
    }

    pub closed spec fn spec_count(&self) -> nat {
        self.count as nat
    }

    pub closed spec fn wf(&self) -> bool {
        &&& self.offset + self.count <= usize::MAX
        &&& self.seen == self.frames@.len()
        &&& self.seen <= self.offset + self.count
        &&& self.kept@ == if self.seen <= self.offset {
            Seq::<I>::empty()
        } else {
            self.frames@.subrange(self.offset as int, self.seen as int)
        }
    }

    pub fn new(offset: usize, count: usize) -> (r: Self)
        requires
            offset + count <= usize::MAX,
        ensures
            r.wf(),
            r.frames() == Seq::<I>::empty(),
            r.spec_offset() == offset,
            r.spec_count() == count,
    {
        ReplyCollector { offset, count, seen: 0, kept: Vec::new(), frames: Ghost(Seq::empty()) }
    }

    /// Whether all `offset + count` replies have been read.
    pub fn is_done(&self) -> (r: bool)
        requires
            self.wf(),
        ensures
            r == (self.frames().len() == self.spec_offset() + self.spec_count()),
    {
        self.seen == self.offset + self.count
    }

    /// Takes in the next reply read from the connection.
    pub fn on_frame(&mut self, frame: I)
        requires
            old(self).wf(),
            old(self).frames().len() < old(self).spec_offset() + old(self).spec_count(),
        ensures
            final(self).wf(),
            final(self).frames() == old(self).frames().push(frame),
            final(self).spec_offset() == old(self).spec_offset(),
            final(self).spec_count() == old(self).spec_count(),
    {
        let ghost before = self.frames@;
        self.frames = Ghost(self.frames@.push(frame));
        if self.seen >= self.offset {
            self.kept.push(frame);
        }
        self.seen = self.seen + 1;
        assert(self.kept@ =~= if self.seen <= self.offset {
            Seq::<I>::empty()
        } else {
            self.frames@.subrange(self.offset as int, self.seen as int)
        });
    }

    /// The kept replies: those that followed the first `offset`.
    pub fn into_replies(self) -> (r: Vec<I>)
        requires
            self.wf(),
            self.frames().len() == self.spec_offset() + self.spec_count(),
        ensures
            r@ == self.frames().skip(self.spec_offset() as int),
            r@.len() == self.spec_count(),
    {
        let ghost fs = self.frames@;
        assert(self.count == 0 ==> self.kept@ =~= fs.skip(self.offset as int));
        assert(self.kept@ =~= fs.skip(self.offset as int));
        self.kept
    }
}

/// A connection with a single owner, who sends one command or pipeline at a
/// time and reads the replies in turn from the transport `T`, decoding them
/// with the incremental decoder `D`, whose state persists across reads.
pub struct Connection<T, D> {
    pub con: T,
    /// Scratch space for the bytes of the request being written.
    pub buf: Vec<u8>,
    pub decoder: D,
    pub db: i64,
}

impl<T, D> ConnectionLike for Connection<T, D> {
    open spec fn spec_db(&self) -> i64 {
        self.db
    }

    fn get_db(&self) -> (r: i64) {
        self.db
    }
}

/// A connection that can be cloned, so that many callers send requests
/// concurrently over one transport, each clone holding a handle `P` to the
/// same pipeline and driver.
#[derive(Clone)]
pub struct MultiplexedConnection<P> {
    pub pipeline: P,
    pub db: i64,
}

impl<P> ConnectionLike for MultiplexedConnection<P> {
    open spec fn spec_db(&self) -> i64 {
        self.db
    }

    fn get_db(&self) -> (r: i64) {
        self.db
    }
}

} // verus!
