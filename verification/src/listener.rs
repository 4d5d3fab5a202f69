//! Starting and stopping a listener, and the decisions of its accept loop.

use crate::channel::{signal, StopTx};
use crate::codec::{decimal_text, push_decimal};
use crate::states::RelayState;
use vstd::prelude::*;
use vstd::string::StringExecFns;

verus! {

/// What a listener is bound to while it is active.
pub struct ServerHandle {
    pub port: u16,
    /// The secret that a peer presents to register as the server.
    pub secret: [u8; 32],
}

/// Why a listener was not started.
#[derive(Debug, Clone, Copy, PartialEq, Eq, Structural)]
pub enum StartError {
    /// A listener is active already, on this port.
    AlreadyListening(u16),
    /// The port could not be bound.
    PortInUse,
}

impl StartError {
    /// The text of the error.
    pub open spec fn text(self) -> Seq<char> {
        match self {
            StartError::AlreadyListening(port) => "Server already listen on \""@ + decimal_text(
                port as nat,
            ) + "\""@,
            StartError::PortInUse => "Port already in use"@,
        }
    }

    /// The error as the embedding program reports it.
    pub fn message(&self) -> (text: String)
        ensures
            text@ == self.text(),
    {
        match self {
            StartError::AlreadyListening(port) => {
                let mut text = String::from_str("Server already listen on \"");
                push_decimal(&mut text, *port as u64);
                text.append("\"");
                text
            },
            StartError::PortInUse => String::from_str("Port already in use"),
        }
    }
}

/// Calls `RngCore::fill_bytes` on the thread's generator from `thread_rng`
/// to fill an array of 32 bytes.
///
/// The bytes are random, so nothing is promised of them.
#[verifier::external_body]
fn fresh_secret() -> (secret: [u8; 32]) {
    let mut secret = [0u8; 32];
    rand::RngCore::fill_bytes(&mut rand::thread_rng(), &mut secret);
    secret
}

/// Whether peers from other hosts are let in.
pub struct OpenFlag {
    /// Absent, with nothing to set, before the first start; every start
    /// lets in local peers only.
    pub open: Option<bool>,
}

impl OpenFlag {
    /// The flag of a process that never listened.
    pub fn new() -> (flag: OpenFlag)
        ensures
            flag.open is None,
    {
        OpenFlag { open: None }
    }

    /// Lets in peers from other hosts, if a start was ever asked for.
    pub fn set_open(&mut self)
        ensures
            final(self).open == if old(self).open is Some {
                Some(true)
            } else {
                None
            },
    {
        if self.open.is_some() {
            self.open = Some(true);
        }
    }

    /// Whether peers from other hosts are let in.
    pub fn is_open(&self) -> (open: bool)
        ensures
            open == (self.open == Some(true)),
    {
        match self.open {
            Some(open) => open,
            None => false,
        }
    }
}

/// The one listener that a process runs at a time.
pub struct ServerManager {
    /// Present while a listener is active.
    pub handle: Option<ServerHandle>,
    /// Fires the stop signal of the listener that was started last.
    pub stop_tx: Option<StopTx>,
}

impl ServerManager {
    /// A manager of a process that never listened.
    pub fn new() -> (manager: ServerManager)
        ensures
            manager.handle is None,
            manager.stop_tx is None,
    {
        ServerManager { handle: None, stop_tx: None }
    }

    /// Claims the listener for a start on `port`, before the port is bound.
    ///
    /// Peers from other hosts are shut out again, whatever the outcome. The
    /// start is refused while a listener is active.
    pub fn start_server(&mut self, flag: &mut OpenFlag, port: u16, stop_tx: StopTx) -> (r: Result<
        (),
        StartError,
    >)
        ensures
            final(flag).open == Some(false),
            final(self).handle == old(self).handle,
            match r {
                Ok(()) => old(self).handle is None && final(self).stop_tx == Some(stop_tx),
                Err(e) => {
                    &&& old(self).handle matches Some(handle)
                    &&& e == StartError::AlreadyListening(handle.port)
                    &&& final(self).stop_tx == old(self).stop_tx
                },
            },
    {
        flag.open = Some(false);
        if let Some(handle) = &self.handle {
            return Err(StartError::AlreadyListening(handle.port));
        }
        self.stop_tx = Some(stop_tx);
        Ok(())
    }

    /// Records that the listener is bound to `port`; returns the fresh
    /// secret that a peer must present to register as the server.
    pub fn listening(&mut self, port: u16) -> (secret: [u8; 32])
        ensures
            final(self).handle == Some(ServerHandle { port, secret }),
            final(self).stop_tx == old(self).stop_tx,
    {
        let secret = fresh_secret();
        self.handle = Some(ServerHandle { port, secret });
        secret
    }

    /// Fires the stop signal, if a listener was started and not yet
    /// stopped; says whether it did.
    pub fn stop_server(&mut self) -> (signalled: bool)
        ensures
            signalled == old(self).stop_tx is Some,
            final(self).stop_tx is None,
            final(self).handle == old(self).handle,
    {
        match self.stop_tx.take() {
            Some(stop_tx) => {
                signal(stop_tx);
                true
            },
            None => false,
        }
    }

    /// Forgets the listener once it has closed.
    pub fn release(&mut self)
        ensures
            final(self).handle is None,
            final(self).stop_tx is None,
    {
        self.handle = None;
        self.stop_tx = None;
    }
}

/// The shortest pause after a failed accept, in milliseconds.
pub const BACKOFF_FLOOR_MS: u64 = 100;

/// The longest pause after a failed accept, in milliseconds.
pub const BACKOFF_CEILING_MS: u64 = 5000;

/// The number of accepts that may fail in a row before the listener gives
/// up.
pub const MAX_ACCEPT_ERRORS: u32 = 20;

/// What happened at the listening socket.
#[derive(Debug, Clone, Copy, PartialEq, Eq, Structural)]
pub enum AcceptEvent {
    /// The stop signal fired.
    StopRequested,
    /// A connection came in, from this host or from another.
    Accepted { loopback: bool },
    /// The accept failed.
    Failed,
}

/// What the accept loop is to do next.
#[derive(Debug, Clone, Copy, PartialEq, Eq, Structural)]
pub enum AcceptAction {
    /// Leave the loop and drain the listener.
    Drain,
    /// Hand the connection to a handler of its own and go on.
    Serve,
    /// Drop the connection and go on.
    Refuse,
    /// Pause for so many milliseconds and go on.
    Retry { wait_ms: u64 },
}

/// The error count and the backoff of an accept loop.
#[derive(Debug, Clone, Copy, PartialEq, Eq, Structural)]
pub struct AcceptLoop {
    /// The pause after the next failed accept, in milliseconds.
    pub backoff_ms: u64,
    /// The number of accepts that failed since the last one that succeeded.
    pub consecutive_errors: u32,
}

impl AcceptLoop {
    /// The backoff is within its bounds and the errors were counted up to
    /// the limit at most.
    pub open spec fn wf(self) -> bool {
        &&& BACKOFF_FLOOR_MS <= self.backoff_ms <= BACKOFF_CEILING_MS
        &&& self.consecutive_errors <= MAX_ACCEPT_ERRORS
    }

    /// A loop that has seen no error.
    pub open spec fn fresh() -> AcceptLoop {
        AcceptLoop { backoff_ms: BACKOFF_FLOOR_MS, consecutive_errors: 0 }
    }

    /// The loop after `event`, and what it does about it.
    ///
    /// A stop request ends the loop. An accepted connection clears the
    /// errors; it is served unless it comes from another host while those
    /// are shut out. A failed accept is paused for, each pause twice as
    /// long as the one before up to the ceiling, until too many failed in
    /// a row.
    pub open spec fn next(self, open: bool, event: AcceptEvent) -> (AcceptLoop, AcceptAction) {
        match event {
            AcceptEvent::StopRequested => (self, AcceptAction::Drain),
            AcceptEvent::Accepted { loopback } => (
                AcceptLoop::fresh(),
                if open || loopback {
                    AcceptAction::Serve
                } else {
                    AcceptAction::Refuse
                },
            ),
            AcceptEvent::Failed => if self.consecutive_errors + 1 >= MAX_ACCEPT_ERRORS {
                (
                    AcceptLoop { consecutive_errors: MAX_ACCEPT_ERRORS, ..self },
                    AcceptAction::Drain,
                )
            } else {
                (
                    AcceptLoop {
                        backoff_ms: if 2 * self.backoff_ms <= BACKOFF_CEILING_MS {
                            (2 * self.backoff_ms) as u64
                        } else {
                            BACKOFF_CEILING_MS
                        },
                        consecutive_errors: (self.consecutive_errors + 1) as u32,
                    },
                    AcceptAction::Retry { wait_ms: self.backoff_ms },
                )
            },
        }
    }

    pub fn new() -> (accept: AcceptLoop)
        ensures
            accept == AcceptLoop::fresh(),
            accept.wf(),
    {
        AcceptLoop { backoff_ms: BACKOFF_FLOOR_MS, consecutive_errors: 0 }
    }

    /// Takes in what happened at the listening socket; returns what to do
    /// next. Shutdown is scheduled as the loop ends.
    pub fn on_event(&mut self, state: &mut RelayState, open: bool, event: AcceptEvent) -> (action:
        AcceptAction)
        requires
            old(self).wf(),
            old(state).wf(),
        ensures
            final(self).wf(),
            final(state).wf(),
            (*final(self), action) == old(self).next(open, event),
            final(state)@ == if action == AcceptAction::Drain {
                old(state)@.shutting_down()
            } else {
                old(state)@
            },
    {
        match event {
            AcceptEvent::StopRequested => {
                state.schedule_shutdown();
                AcceptAction::Drain
            },
            AcceptEvent::Accepted { loopback } => {
                self.consecutive_errors = 0;
                self.backoff_ms = BACKOFF_FLOOR_MS;
                if open || loopback {
                    AcceptAction::Serve
                } else {
                    AcceptAction::Refuse
                }
            },
            AcceptEvent::Failed => {
                if self.consecutive_errors + 1 >= MAX_ACCEPT_ERRORS {
                    self.consecutive_errors = MAX_ACCEPT_ERRORS;
                    state.schedule_shutdown();
                    return AcceptAction::Drain;
                }
                self.consecutive_errors += 1;
                let wait_ms = self.backoff_ms;
                self.backoff_ms = if 2 * wait_ms <= BACKOFF_CEILING_MS {
                    2 * wait_ms
                } else {
                    BACKOFF_CEILING_MS
                };
                AcceptAction::Retry { wait_ms }
            },
        }
    }
}

/// Clears what a listener leaves behind once its accept loop has ended:
/// the server slot, both indices of clients, and the binding of port and
/// secret.
pub fn drain(state: &mut RelayState, manager: &mut ServerManager)
    requires
        old(state).wf(),
    ensures
        final(state).wf(),
        final(state)@ == old(state)@.with_server(None).without_clients(),
        final(manager).handle is None,
        final(manager).stop_tx is None,
{
    state.clear_server();
    state.clear_clients();
    manager.release();
}

} // verus!
