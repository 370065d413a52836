//! Connection session lifecycle: one session per endpoint, moving through
//! `Connecting -> Active -> Closed`, with an event-driven loop that either
//! forwards an inbound binary payload through the sanitizer or sends a
//! keepalive ping on a tick, until either side fails or closes.

use vstd::prelude::*;
use vstd::utf8::valid_utf8;
use crate::sanitize::{sanitize, strip_ansi, DecodeFailure};

verus! {

/// Upper bound on a single transport message, in bytes.
pub const MAX_MESSAGE_BYTES: usize = 5 * 1024;

/// Upper bound on a single transport frame, in bytes.
pub const MAX_FRAME_BYTES: usize = 5 * 1024;

/// Keepalive period, in seconds.
pub const KEEPALIVE_PERIOD_SECS: u64 = 10;

/// The fixed body of every keepalive ping frame.
pub open spec fn ping_payload() -> Seq<u8> {
    seq![1u8, 2u8, 3u8, 4u8]
}

/// Why a session reached its terminal state.
#[derive(Clone, Copy, Debug, PartialEq, Eq, Structural)]
pub enum Termination {
    /// The remote closed the stream cleanly: not an error.
    CleanClose,
    /// The connection target could not be composed into a valid URL.
    TargetInvalid,
    /// The transport handshake was rejected or unreachable.
    HandshakeFailed,
    /// An inbound read failed.
    ReadFailed,
    /// A keepalive send failed.
    SendFailed,
}

/// The lifecycle states of a session.
#[derive(Clone, Copy, Debug, PartialEq, Eq, Structural)]
pub enum SessionState {
    Connecting,
    Active,
    Closed,
}

/// One event observed by an active session's loop.
#[derive(Debug)]
pub enum SessionEvent {
    /// An inbound binary message carrying log content.
    Binary(Vec<u8>),
    /// Any other inbound message kind: discarded.
    Control,
    /// An inbound read error.
    ReadError,
    /// End of stream: the remote closed cleanly.
    RemoteClosed,
    /// The keepalive ticker fired.
    Tick,
    /// A previously requested ping send failed.
    PingSendError,
}

/// What the caller must do after one step of the session loop.
#[derive(Debug)]
pub enum SessionAction {
    /// Write this sanitized text line to the output sink and flush it.
    EmitLine(Vec<u8>),
    /// Drop the payload; it was not valid text once stripped.
    DropPayload(DecodeFailure),
    /// Drop a non-binary message.
    DropControl,
    /// Send a ping frame with this body.
    SendPing(Vec<u8>),
    /// Nothing to do; the session has reached its terminal state.
    Close,
}

/// True when the event ends the session.
pub open spec fn closes(ev: &SessionEvent) -> bool {
    match ev {
        SessionEvent::ReadError => true,
        SessionEvent::RemoteClosed => true,
        SessionEvent::PingSendError => true,
        _ => false,
    }
}

/// The terminal cause carried by a closing event.
pub open spec fn termination_of(ev: &SessionEvent) -> Termination
    recommends
        closes(ev),
{
    match ev {
        SessionEvent::ReadError => Termination::ReadFailed,
        SessionEvent::PingSendError => Termination::SendFailed,
        _ => Termination::CleanClose,
    }
}

/// The lines that one event contributes to the output sink.
pub open spec fn event_lines(ev: &SessionEvent) -> Seq<Seq<u8>> {
    match ev {
        SessionEvent::Binary(b) => if valid_utf8(strip_ansi(b@)) {
            seq![strip_ansi(b@)]
        } else {
            seq![]
        },
        _ => seq![],
    }
}

/// The pings that one event causes to be sent.
pub open spec fn event_pings(ev: &SessionEvent) -> nat {
    match ev {
        SessionEvent::Tick => 1,
        _ => 0,
    }
}

/// The lines an active session writes to the sink over a sequence of
/// events, stopping at the first closing event.
pub open spec fn emitted_lines(events: Seq<SessionEvent>) -> Seq<Seq<u8>>
    decreases events.len(),
{
    if events.len() == 0 {
        seq![]
    } else if closes(&events[0]) {
        seq![]
    } else {
        event_lines(&events[0]) + emitted_lines(events.skip(1))
    }
}

/// The pings an active session sends over a sequence of events, stopping at
/// the first closing event.
pub open spec fn pings_sent(events: Seq<SessionEvent>) -> nat
    decreases events.len(),
{
    if events.len() == 0 {
        0
    } else if closes(&events[0]) {
        0
    } else {
        event_pings(&events[0]) + pings_sent(events.skip(1))
    }
}

/// How an active session ends over a sequence of events: the cause carried
/// by the first closing event, or nothing when the session is still active.
pub open spec fn final_termination(events: Seq<SessionEvent>) -> Option<Termination>
    decreases events.len(),
{
    if events.len() == 0 {
        None
    } else if closes(&events[0]) {
        Some(termination_of(&events[0]))
    } else {
        final_termination(events.skip(1))
    }
}

/// One endpoint's connection session.
#[derive(Debug)]
pub struct Session {
    /// The endpoint address this session is bound to, for diagnostics.
    pub address: String,
    /// The lifecycle state.
    pub state: SessionState,
    /// The terminal cause, present exactly when the session is closed.
    pub termination: Option<Termination>,
}

impl Session {
    /// Well-formedness: a terminal cause is recorded exactly in the
    /// terminal state.
    pub open spec fn wf(&self) -> bool {
        self.state is Closed <==> self.termination is Some
    }

    /// Creates the session for one endpoint address, ready to connect.
    pub fn new(address: String) -> (s: Session)
        ensures
            s.wf(),
            s.state is Connecting,
            s.termination is None,
            s.address@ == address@,
    {
        Session { address, state: SessionState::Connecting, termination: None }
    }

    /// Records a startup failure (invalid target or failed handshake): the
    /// session is terminal and is never retried.
    pub fn abort_connect(&mut self, cause: Termination)
        requires
            old(self).wf(),
            old(self).state is Connecting,
            cause is TargetInvalid || cause is HandshakeFailed,
        ensures
            final(self).wf(),
            final(self).state is Closed,
            final(self).termination == Some(cause),
            final(self).address == old(self).address,
    {
        self.state = SessionState::Closed;
        self.termination = Some(cause);
    }

    /// Records a successful handshake: the session enters its event loop.
    pub fn activate(&mut self)
        requires
            old(self).wf(),
            old(self).state is Connecting,
        ensures
            final(self).wf(),
            final(self).state is Active,
            final(self).termination is None,
            final(self).address == old(self).address,
    {
        self.state = SessionState::Active;
    }

    /// Runs one step of the active session's loop on one observed event,
    /// returning the action the caller must perform. A binary payload is
    /// sanitized and either emitted as one line or dropped with its
    /// stripped byte length; a tick asks for one ping with the fixed body;
    /// a closing event moves the session to its terminal state.
    pub fn step(&mut self, ev: SessionEvent) -> (act: SessionAction)
        requires
            old(self).wf(),
            old(self).state is Active,
        ensures
            final(self).wf(),
            final(self).address == old(self).address,
            final(self).state == if closes(&ev) {
                SessionState::Closed
            } else {
                SessionState::Active
            },
            final(self).termination == if closes(&ev) {
                Some(termination_of(&ev))
            } else {
                None::<Termination>
            },
            ev matches SessionEvent::Binary(b) ==> (if valid_utf8(strip_ansi(b@)) {
                act matches SessionAction::EmitLine(l) && l@ == strip_ansi(b@) && event_lines(&ev)
                    == seq![l@]
            } else {
                act matches SessionAction::DropPayload(f) && f.length == strip_ansi(b@).len()
            }),
            ev is Control ==> act is DropControl,
            ev is Tick ==> (act matches SessionAction::SendPing(p) && p@ == ping_payload()),
            closes(&ev) ==> act is Close,
    {
        match ev {
            SessionEvent::Binary(b) => {
                match sanitize(&b) {
                    Ok(line) => SessionAction::EmitLine(line),
                    Err(failure) => SessionAction::DropPayload(failure),
                }
            },
            SessionEvent::Control => SessionAction::DropControl,
            SessionEvent::Tick => SessionAction::SendPing(ping_frame()),
            SessionEvent::ReadError => {
                self.state = SessionState::Closed;
                self.termination = Some(Termination::ReadFailed);
                SessionAction::Close
            },
            SessionEvent::RemoteClosed => {
                self.state = SessionState::Closed;
                self.termination = Some(Termination::CleanClose);
                SessionAction::Close
            },
            SessionEvent::PingSendError => {
                self.state = SessionState::Closed;
                self.termination = Some(Termination::SendFailed);
                SessionAction::Close
            },
        }
    }
}

/// Builds the fixed four-byte keepalive ping body.
pub fn ping_frame() -> (v: Vec<u8>)
    ensures
        v@ == ping_payload(),
{
    let mut v: Vec<u8> = Vec::new();
    v.push(1);
    v.push(2);
    v.push(3);
    v.push(4);
    proof {
        assert(v@ =~= ping_payload());
    }
    v
}

/// A session that receives only binary messages whose payloads sanitize
/// successfully, with no ticks firing, emits exactly one line per message,
/// in receipt order, stays active, and sends no pings.
pub proof fn lemma_binary_messages_in_order(events: Seq<SessionEvent>)
    requires
        forall|i: int|
            0 <= i < events.len() ==> (#[trigger] events[i] matches SessionEvent::Binary(b)
                && valid_utf8(strip_ansi(b@))),
    ensures
        emitted_lines(events).len() == events.len(),
        forall|i: int|
            0 <= i < events.len() ==> #[trigger] emitted_lines(events)[i] == strip_ansi(
                payload_view(events[i]),
            ),
        pings_sent(events) == 0,
        final_termination(events) is None,
    decreases events.len(),
{
    if events.len() > 0 {
        assert(events[0] matches SessionEvent::Binary(b) && valid_utf8(strip_ansi(b@)));
        assert(forall|i: int|
            0 <= i < events.skip(1).len() ==> #[trigger] events.skip(1)[i] == events[i + 1]);
        lemma_binary_messages_in_order(events.skip(1));
        assert(event_lines(&events[0]) == seq![strip_ansi(payload_view(events[0]))]);
        assert forall|i: int| 0 <= i < events.len() implies #[trigger] emitted_lines(events)[i]
            == strip_ansi(payload_view(events[i])) by {
            if i > 0 {
                assert(emitted_lines(events)[i] == emitted_lines(events.skip(1))[i - 1]);
                assert(events.skip(1)[i - 1] == events[i]);
            }
        }
    }
}

/// The byte payload of a binary event.
pub open spec fn payload_view(ev: SessionEvent) -> Seq<u8> {
    match ev {
        SessionEvent::Binary(b) => b@,
        _ => seq![],
    }
}

/// A session that observes only keepalive ticks sends exactly one ping per
/// tick, indefinitely, emits no lines, and stays active.
pub proof fn lemma_ticks_send_pings(events: Seq<SessionEvent>)
    requires
        forall|i: int| 0 <= i < events.len() ==> #[trigger] events[i] is Tick,
    ensures
        pings_sent(events) == events.len(),
        emitted_lines(events).len() == 0,
        final_termination(events) is None,
    decreases events.len(),
{
    if events.len() > 0 {
        assert(forall|i: int|
            0 <= i < events.skip(1).len() ==> #[trigger] events.skip(1)[i] == events[i + 1]);
        lemma_ticks_send_pings(events.skip(1));
    }
}

/// When the remote closes the stream cleanly, the session terminates with
/// the clean (non-error) cause, and no event after the close contributes a
/// line or a ping.
pub proof fn lemma_clean_close_stops_session(events: Seq<SessionEvent>, k: int)
    requires
        0 <= k < events.len(),
        events[k] is RemoteClosed,
        forall|j: int| 0 <= j < k ==> !closes(&#[trigger] events[j]),
    ensures
        final_termination(events) == Some(Termination::CleanClose),
        emitted_lines(events) == emitted_lines(events.take(k)),
        pings_sent(events) == pings_sent(events.take(k)),
    decreases k,
{
    if k == 0 {
        assert(closes(&events[0]));
        assert(emitted_lines(events) =~= emitted_lines(events.take(0)));
    } else {
        assert(!closes(&events[0]));
        assert(events.skip(1)[k - 1] == events[k]);
        assert(forall|j: int|
            0 <= j < k - 1 ==> #[trigger] events.skip(1)[j] == events[j + 1]);
        lemma_clean_close_stops_session(events.skip(1), k - 1);
        assert(events.take(k).skip(1) =~= events.skip(1).take(k - 1));
        assert(events.take(k)[0] == events[0]);
    }
}

} // verus!
