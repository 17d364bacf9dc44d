//! What a reconnecting connection manager decides: when a failure calls for
//! a new connection, and which of several callers that saw the same dead
//! connection gets to install the replacement.
use crate::connection::ConnectionLike;
use crate::types::{ConnectionInfo, RedisError};
use vstd::prelude::*;

verus! {

/// The generation that follows `g`, wrapping around at the top.
pub open spec fn next_generation(g: u64) -> u64 {
    if g == u64::MAX {
        0
    } else {
        (g + 1) as u64
    }
}

/// The outcome of a replacement asked for by a caller that observed
/// generation `observed`, on a slot at generation `g` holding `current`:
/// the new generation, the new content, and whether the caller won.
pub open spec fn replaced<F>(g: u64, current: F, observed: u64, fresh: F) -> (u64, F, bool) {
    if observed == g {
        (next_generation(g), fresh, true)
    } else {
        (g, current, false)
    }
}

/// The slot that holds the current connection (or the future that yields
/// it), together with a generation that each replacement advances. A caller
/// remembers the generation it used; a replacement succeeds only if no one
/// has replaced that connection since.
pub struct ConnectionSlot<F> {
    generation: u64,
    current: F,
}

impl<F> ConnectionSlot<F> {
    pub closed spec fn spec_generation(&self) -> u64 {
        self.generation
    }

    pub closed spec fn spec_current(&self) -> F {
        self.current
    }

    pub fn new(current: F) -> (r: Self)
        ensures
            r.spec_generation() == 0,
            r.spec_current() == current,
    {
        ConnectionSlot { generation: 0, current }
    }

    pub fn generation(&self) -> (r: u64)
        ensures
            r == self.spec_generation(),
    {
        self.generation
    }

    pub fn current(&self) -> (r: &F)
        ensures
            *r == self.spec_current(),
    {
        &self.current
    }

    /// Installs `fresh` if the slot still holds generation `observed`, and
    /// says whether it did; otherwise another caller already replaced the
    /// connection, `fresh` is dropped and the slot is unchanged.
    pub fn replace_if_current(&mut self, observed: u64, fresh: F) -> (won: bool)
        ensures
            (final(self).spec_generation(), final(self).spec_current(), won) == replaced(
                old(self).spec_generation(),
                old(self).spec_current(),
                observed,
                fresh,
            ),
    {
        if observed == self.generation {
            self.generation = if self.generation == u64::MAX {
                0
            } else {
                self.generation + 1
            };
            self.current = fresh;
            true
        } else {
            false
        }
    }
}

/// Two callers that saw the same dead connection and both ask to replace
/// it make at most one replacement: the second loses, and the slot keeps
/// the first one's connection, which the loser then awaits too.
pub proof fn lemma_reconnect_once<F>(g: u64, current: F, observed: u64, first: F, second: F)
    ensures
        ({
            let (g1, c1, won1) = replaced(g, current, observed, first);
            let (g2, c2, won2) = replaced(g1, c1, observed, second);
            &&& !(won1 && won2)
            &&& won1 ==> c2 == first && g2 == g1
            &&& !won1 ==> c1 == current && g1 == g
        }),
{
}

/// The slot after callers that all observed generation `observed` ask, one
/// after another, to install `fresh[0]`, `fresh[1]`, ...: the generation,
/// the content, and how many of them won.
pub open spec fn replace_all<F>(g: u64, current: F, observed: u64, fresh: Seq<F>) -> (u64, F, nat)
    decreases fresh.len(),
{
    if fresh.len() == 0 {
        (g, current, 0)
    } else {
        let (g1, c1, won) = replaced(g, current, observed, fresh[0]);
        let (g2, c2, n) = replace_all(g1, c1, observed, fresh.drop_first());
        (g2, c2, n + if won { 1nat } else { 0nat })
    }
}

proof fn lemma_stale_guard_changes_nothing<F>(g: u64, current: F, observed: u64, fresh: Seq<F>)
    requires
        g != observed,
    ensures
        replace_all(g, current, observed, fresh) == (g, current, 0nat),
    decreases fresh.len(),
{
    if fresh.len() > 0 {
        lemma_stale_guard_changes_nothing(g, current, observed, fresh.drop_first());
    }
}

/// However many callers saw the same dead connection and ask to replace it,
/// at most one replacement is made. When the slot still held what they saw,
/// exactly the first of them wins, and the slot ends up holding its
/// connection, which all the others then await; when it no longer did,
/// nothing changes.
pub proof fn lemma_reconnect_once_for_all<F>(g: u64, current: F, observed: u64, fresh: Seq<F>)
    ensures
        ({
            let (g2, c2, wins) = replace_all(g, current, observed, fresh);
            &&& wins <= 1
            &&& (g == observed && fresh.len() > 0) ==> wins == 1 && c2 == fresh[0] && g2 == next_generation(g)
            &&& g != observed ==> g2 == g && c2 == current && wins == 0
        }),
{
    if g != observed {
        lemma_stale_guard_changes_nothing(g, current, observed, fresh);
    } else if fresh.len() > 0 {
        lemma_stale_guard_changes_nothing(next_generation(g), fresh[0], observed, fresh.drop_first());
    }
}

/// Whether a failure to obtain the connection calls for a new one: it does
/// for an I/O failure. The error goes back to the caller either way.
pub fn reconnect_on_connect_error(err: &RedisError) -> (r: bool)
    ensures
        r == err.spec_is_io_error(),
{
    err.is_io_error()
}

/// Whether the result of a command calls for a new connection: it does when
/// the command failed with an I/O error, a lost connection included. A
/// server's refusal does not. The result goes back to the caller unchanged
/// either way.
pub fn reconnect_after_command<T>(result: &Result<T, RedisError>) -> (r: bool)
    ensures
        r == (result is Err && result->Err_0.spec_is_io_error()),
{
    match result {
        Ok(_) => false,
        Err(e) => e.is_io_error(),
    }
}

/// The error a caller gets when the shared connection it awaited could not
/// be established: the same kind, so that an I/O failure still calls for
/// another attempt, described as a failed reconnection.
pub fn reconnect_failed(err: &RedisError) -> (r: RedisError)
    ensures
        r.kind == err.kind,
        r.detail@ == "Reconnecting failed"@,
{
    RedisError::new(err.kind, "Reconnecting failed")
}

/// A connection that replaces itself when the transport fails. It keeps what
/// it needs to open a new connection, and a shared handle `H` to the slot
/// that holds the current one.
#[derive(Clone)]
pub struct ConnectionManager<H> {
    pub connection_info: ConnectionInfo,
    pub connection: H,
}

impl<H> ConnectionManager<H> {
    /// A manager over the connection slot `connection`, which reopens
    /// connections with `connection_info`.
    pub fn new(connection_info: ConnectionInfo, connection: H) -> (r: Self)
        ensures
            r.connection_info == connection_info,
            r.connection == connection,
    {
        ConnectionManager { connection_info, connection }
    }
}

impl<H> ConnectionLike for ConnectionManager<H> {
    /// The configured database, which reconnecting does not change.
    open spec fn spec_db(&self) -> i64 {
        self.connection_info.db
    }

    fn get_db(&self) -> (r: i64) {
        self.connection_info.db
    }
}

} // verus!
