//! The states of a TLS 1.3 client session and how opening it moves
//! between them.
use vstd::prelude::*;

verus! {

/// The largest TLS record the session buffers hold.
pub const TLS_MAX_FRAME_SIZE: usize = 16384;

/// Where a TLS session stands.
#[derive(Clone, Copy, Debug, PartialEq, Eq, Structural)]
pub enum TlsState {
    Initial,
    HandshakeInProgress,
    Connected,
    Closed,
    Error,
}

/// Why a session operation was refused before it reached the connection.
#[derive(Clone, Copy, Debug, PartialEq, Eq, Structural)]
pub enum TlsSessionError {
    /// The session was already opened once: its random source is spent.
    RandomSourceSpent,
    /// No handshake has completed, so there is no connection to use.
    MissingHandshake,
}

/// The state of a session across `open`, `read`, `write` and `flush`:
/// whether its one random source is still unused and whether a handshake
/// has completed.
#[derive(Clone, Copy, Debug, PartialEq, Eq, Structural)]
pub struct TlsSession {
    pub state: TlsState,
    pub rng_available: bool,
    pub connected: bool,
}

impl TlsSession {
    /// A fresh session: initial, with its random source, not connected.
    pub fn new() -> (s: Self)
        ensures
            s == (TlsSession { state: TlsState::Initial, rng_available: true, connected: false }),
    {
        TlsSession { state: TlsState::Initial, rng_available: true, connected: false }
    }

    /// The session's state.
    pub fn state(&self) -> (r: TlsState)
        ensures
            r == self.state,
    {
        self.state
    }

    /// Starts opening: the handshake is in progress, and the random source
    /// is taken for it; refused when it was taken before.
    pub fn begin_open(&mut self) -> (r: Result<(), TlsSessionError>)
        ensures
            final(self).state == TlsState::HandshakeInProgress,
            final(self).connected == old(self).connected,
            final(self).rng_available == false,
            r == (if old(self).rng_available { Ok(()) } else { Err(TlsSessionError::RandomSourceSpent) }),
    {
        self.state = TlsState::HandshakeInProgress;
        if !self.rng_available {
            return Err(TlsSessionError::RandomSourceSpent);
        }
        self.rng_available = false;
        Ok(())
    }

    /// Records how the handshake ended: connected, or in error.
    pub fn finish_open(&mut self, handshake_ok: bool)
        ensures
            final(self).rng_available == old(self).rng_available,
            handshake_ok ==> final(self).state == TlsState::Connected && final(self).connected,
            !handshake_ok ==> final(self).state == TlsState::Error && final(self).connected == old(self).connected,
    {
        if handshake_ok {
            self.state = TlsState::Connected;
            self.connected = true;
        } else {
            self.state = TlsState::Error;
        }
    }

    /// Whether reads, writes and flushes may reach the connection: only
    /// after a handshake completed.
    pub fn require_connection(&self) -> (r: Result<(), TlsSessionError>)
        ensures
            r == (if self.connected { Ok(()) } else { Err(TlsSessionError::MissingHandshake) }),
    {
        if self.connected { Ok(()) } else { Err(TlsSessionError::MissingHandshake) }
    }
}

} // verus!
