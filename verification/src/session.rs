//! Interactive session multiplexer: one remote shell channel, local
//! raw-mode terminal state, and a resize-signal subscription.
//!
//! The session moves through Initializing, Running, Closing and Terminated.
//! While Running, the surrounding loop waits on whichever of three sources
//! becomes ready first — a resize signal, local terminal input, or a remote
//! channel message — and hands the event to [`TerminalSession::step`], which
//! decides the next state and the action to perform.  Closing
//! unconditionally unsubscribes from resize signals and restores the
//! terminal mode; any captured error is returned only after restoration, and
//! a restoration failure never suppresses it.

use vstd::prelude::*;
use crate::errors::ClientError;

verus! {

/// Lifecycle phase of one interactive session.
#[derive(Clone, Copy, Debug, PartialEq, Eq, Structural)]
pub enum SessionPhase {
    Initializing,
    Running,
    Closing,
    Terminated,
}

/// One message from the remote channel.
pub enum RemoteMsg {
    /// Shell output to show locally.
    Data(Vec<u8>),
    /// The remote command finished with this status.
    ExitStatus(u32),
    /// The remote side will send no more data.
    Eof,
    /// Any other channel message kind.
    Other,
}

/// One event from the three-way race the Running loop waits on.
pub enum SessionEvent {
    /// A resize signal fired; these are the freshly re-measured dimensions.
    Resize { cols: u16, rows: u16 },
    /// The local terminal produced bytes.
    LocalInput(Vec<u8>),
    /// The remote channel produced a message.
    Remote(RemoteMsg),
}

/// What the surrounding loop must do in reaction to one event.
pub enum SessionAction {
    /// Send a window-change notification on the remote channel.
    SendWindowChange { cols: u32, rows: u32 },
    /// Forward local input verbatim as channel data.
    SendChannelData(Vec<u8>),
    /// Write remote data verbatim to standard output and flush immediately.
    WriteStdoutAndFlush(Vec<u8>),
    /// Close the remote channel; the session is now Closing.
    CloseChannel,
    /// Nothing to do; remain Running.
    Ignore,
}

/// The abstract state of one interactive session.
pub struct SessionModel {
    pub phase: SessionPhase,
    /// Whether local raw mode is currently enabled, i.e. still to restore.
    pub raw_mode: bool,
    /// The first fatal error captured, if any.
    pub error: Option<ClientError>,
}

/// Before anything has failed the session carries no error: an error is
/// only ever captured on the way to Closing.
pub open spec fn session_wf(m: SessionModel) -> bool {
    (m.phase is Initializing || m.phase is Running) ==> m.error is None
}

/// The Running-state decision function: one event in, the next state and
/// the action to perform out.  Only an exit-status or end-of-stream message
/// leaves Running.
pub open spec fn spec_step(m: SessionModel, event: SessionEvent) -> (SessionModel, SessionAction) {
    match event {
        SessionEvent::Resize { cols, rows } => (
            m,
            SessionAction::SendWindowChange { cols: cols as u32, rows: rows as u32 },
        ),
        SessionEvent::LocalInput(data) => (m, SessionAction::SendChannelData(data)),
        SessionEvent::Remote(msg) => match msg {
            RemoteMsg::Data(data) => (m, SessionAction::WriteStdoutAndFlush(data)),
            RemoteMsg::ExitStatus(_) => (
                SessionModel { phase: SessionPhase::Closing, ..m },
                SessionAction::CloseChannel,
            ),
            RemoteMsg::Eof => (
                SessionModel { phase: SessionPhase::Closing, ..m },
                SessionAction::CloseChannel,
            ),
            RemoteMsg::Other => (m, SessionAction::Ignore),
        },
    }
}

/// The teardown transition: unsubscribe and restore are ordered exactly
/// when raw mode is still on; afterwards nothing is left to restore and the
/// captured error is untouched.
pub open spec fn spec_teardown(m: SessionModel) -> (SessionModel, bool) {
    (SessionModel { phase: SessionPhase::Terminated, raw_mode: false, error: m.error }, m.raw_mode)
}

/// One interactive run: the state behind the multiplexer loop.
pub struct TerminalSession {
    phase: SessionPhase,
    raw_mode: bool,
    error: Option<ClientError>,
}

impl View for TerminalSession {
    type V = SessionModel;

    closed spec fn view(&self) -> SessionModel {
        SessionModel { phase: self.phase, raw_mode: self.raw_mode, error: self.error }
    }
}

impl TerminalSession {
    /// A fresh session, before raw mode is enabled.
    pub fn new() -> (r: TerminalSession)
        ensures
            r@ == (SessionModel {
                phase: SessionPhase::Initializing,
                raw_mode: false,
                error: None,
            }),
    {
        TerminalSession { phase: SessionPhase::Initializing, raw_mode: false, error: None }
    }

    /// Record that local raw mode was enabled; from here on every exit path
    /// owes exactly one restoration.
    pub fn on_raw_mode_enabled(&mut self)
        requires
            old(self)@.phase is Initializing,
            !old(self)@.raw_mode,
        ensures
            final(self)@ == (SessionModel { raw_mode: true, ..old(self)@ }),
    {
        self.raw_mode = true;
    }

    /// Record the outcome of the remote pseudo-terminal request.  Failure
    /// is non-fatal: it is logged by the caller and the session proceeds
    /// degraded, so the state does not change either way.
    pub fn on_pty_result(&mut self, _ok: bool)
        requires
            old(self)@.phase is Initializing,
        ensures
            final(self)@ == old(self)@,
    {
    }

    /// Record the outcome of the resize-signal subscription.  Success
    /// starts the Running loop; failure is fatal to interactive startup and
    /// sends the session straight to Closing, so that raw mode is restored
    /// before the error propagates.
    pub fn on_signals_subscribed(&mut self, ok: bool)
        requires
            old(self)@.phase is Initializing,
            session_wf(old(self)@),
        ensures
            ok ==> final(self)@ == (SessionModel { phase: SessionPhase::Running, ..old(self)@ }),
            !ok ==> final(self)@ == (SessionModel {
                phase: SessionPhase::Closing,
                error: Some(ClientError::SignalSubscription),
                ..old(self)@
            }),
            session_wf(final(self)@),
    {
        if ok {
            self.phase = SessionPhase::Running;
        } else {
            self.phase = SessionPhase::Closing;
            self.error = Some(ClientError::SignalSubscription);
        }
    }

    /// Handle one event of the three-way race.  The returned action is all
    /// the loop performs for this event: in particular a resize yields
    /// exactly one window-change notification, sized to the dimensions just
    /// measured.
    pub fn step(&mut self, event: SessionEvent) -> (a: SessionAction)
        requires
            old(self)@.phase is Running,
            session_wf(old(self)@),
        ensures
            (final(self)@, a) == spec_step(old(self)@, event),
            session_wf(final(self)@),
    {
        match event {
            SessionEvent::Resize { cols, rows } => SessionAction::SendWindowChange {
                cols: cols as u32,
                rows: rows as u32,
            },
            SessionEvent::LocalInput(data) => SessionAction::SendChannelData(data),
            SessionEvent::Remote(msg) => match msg {
                RemoteMsg::Data(data) => SessionAction::WriteStdoutAndFlush(data),
                RemoteMsg::ExitStatus(_) => {
                    self.phase = SessionPhase::Closing;
                    SessionAction::CloseChannel
                },
                RemoteMsg::Eof => {
                    self.phase = SessionPhase::Closing;
                    SessionAction::CloseChannel
                },
                RemoteMsg::Other => SessionAction::Ignore,
            },
        }
    }

    /// Record a failure that is fatal to the Running loop — a local
    /// terminal failure or a remote channel I/O failure.  The session moves
    /// to Closing so that restoration precedes propagation.
    pub fn on_fatal(&mut self, e: ClientError)
        requires
            old(self)@.phase is Running,
            session_wf(old(self)@),
        ensures
            final(self)@ == (SessionModel {
                phase: SessionPhase::Closing,
                error: Some(e),
                ..old(self)@
            }),
    {
        self.phase = SessionPhase::Closing;
        self.error = Some(e);
    }

    /// Perform the Closing bookkeeping: returns whether the caller must
    /// restore the terminal now.  Mandatory and idempotent: the first call
    /// after raw mode was enabled returns true, every later call returns
    /// false, so restoration is ordered exactly once on every exit path.
    pub fn teardown(&mut self) -> (restore: bool)
        requires
            old(self)@.phase is Closing || old(self)@.phase is Terminated,
        ensures
            (final(self)@, restore) == spec_teardown(old(self)@),
    {
        let restore = self.raw_mode;
        self.raw_mode = false;
        self.phase = SessionPhase::Terminated;
        restore
    }

    /// The session's result, reported only after teardown.  A captured
    /// error is returned whether or not the restoration call itself failed
    /// — a restoration failure is logged, never allowed to suppress it.  On
    /// a clean run a restoration failure is itself surfaced as a local I/O
    /// error.
    pub fn outcome(&self, restore_failed: bool) -> (r: Result<(), ClientError>)
        requires
            self@.phase is Terminated,
        ensures
            self@.error matches Some(e) ==> r == Err::<(), ClientError>(e),
            self@.error is None && !restore_failed ==> r is Ok,
            self@.error is None && restore_failed ==> r == Err::<(), ClientError>(
                ClientError::LocalIo,
            ),
    {
        match self.error {
            Some(e) => Err(e),
            None => if restore_failed {
                Err(ClientError::LocalIo)
            } else {
                Ok(())
            },
        }
    }
}

/// On a simulated resize signal during a running session, exactly one
/// window-change notification is issued — the step's entire output — sized
/// to the freshly queried dimensions; the session state is untouched, so no
/// pending local-input or remote-data event is dropped: any such event still
/// produces exactly what it would have produced before the resize.
pub proof fn lemma_resize_single_notification(
    m: SessionModel,
    cols: u16,
    rows: u16,
    pending: SessionEvent,
)
    requires
        m.phase is Running,
    ensures
        ({
            let (m1, a) = spec_step(m, SessionEvent::Resize { cols, rows });
            &&& a == (SessionAction::SendWindowChange { cols: cols as u32, rows: rows as u32 })
            &&& m1 == m
            &&& spec_step(m1, pending) == spec_step(m, pending)
        }),
{
}

/// After a channel exit-status or end-of-stream message, local raw mode is
/// restored exactly once before the multiplexer returns: the step moves the
/// session to Closing with the restoration still owed, the first teardown
/// orders it, and any further teardown orders nothing and changes nothing.
/// The captured error rides through both teardowns untouched, so it is
/// returned only after restoration — and whether the restoration call
/// itself succeeds plays no part in any of these transitions.
pub proof fn lemma_raw_mode_restored_exactly_once(m: SessionModel, msg: RemoteMsg)
    requires
        m.phase is Running,
        m.raw_mode,
        msg is ExitStatus || msg is Eof,
    ensures
        ({
            let (m1, a) = spec_step(m, SessionEvent::Remote(msg));
            let (m2, restore1) = spec_teardown(m1);
            let (m3, restore2) = spec_teardown(m2);
            &&& a is CloseChannel
            &&& m1.phase is Closing
            &&& m1.raw_mode
            &&& restore1 == true
            &&& m2.phase is Terminated
            &&& !m2.raw_mode
            &&& restore2 == false
            &&& m3 == m2
            &&& m2.error == m.error
            &&& m3.error == m.error
        }),
{
}

} // verus!
