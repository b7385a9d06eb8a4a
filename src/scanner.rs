//! The scan of the sidecar's output for its port announcement: a state
//! machine that leaves `Scanning` at the first announcement line, at an
//! error event, or at the end of the stream.
use vstd::prelude::*;

use crate::port_state::{after_resolve, BackendPort};
use crate::port_text::{announced_port, parse_announcement};

verus! {

/// The text that `String::from_utf8_lossy` makes of `bytes`.
pub uninterp spec fn lossy_text(bytes: Seq<u8>) -> Seq<char>;

/// Relies on `String::from_utf8_lossy`: its text depends on the bytes alone.
#[verifier::external_body]
fn decode_line(bytes: &Vec<u8>) -> (r: String)
    ensures
        r@ == lossy_text(bytes@),
{
    String::from_utf8_lossy(bytes).into_owned()
}

/// One event of the sidecar's output stream.
pub enum SidecarEvent {
    /// A line written to standard output, as raw bytes.
    Stdout(Vec<u8>),
    /// An error that the output stream reported.
    Error(String),
    /// Anything else (standard error, termination): not looked at.
    Other,
}

/// The port that an event announces, if it is an announcement line.
pub open spec fn event_port(e: SidecarEvent) -> Option<u16> {
    match e {
        SidecarEvent::Stdout(bytes) => announced_port(lossy_text(bytes@)),
        _ => None,
    }
}

/// Where the scan of the sidecar's output stands. `Resolved` and `Aborted`
/// are final: no event moves the scan out of them.
#[derive(Clone, Copy, Debug, PartialEq, Eq, Structural)]
pub enum ScanState {
    /// No announcement seen yet.
    Scanning,
    /// An announcement line gave this port.
    Resolved(u16),
    /// An error event, or the end of the stream, came before any announcement.
    Aborted,
}

impl ScanState {
    /// The state after `e` arrives.
    pub open spec fn after(self, e: SidecarEvent) -> ScanState {
        match self {
            ScanState::Scanning => match e {
                SidecarEvent::Error(_) => ScanState::Aborted,
                _ => match event_port(e) {
                    Some(p) => ScanState::Resolved(p),
                    None => ScanState::Scanning,
                },
            },
            _ => self,
        }
    }

    /// The state after the stream ends.
    pub open spec fn at_end(self) -> ScanState {
        match self {
            ScanState::Scanning => ScanState::Aborted,
            _ => self,
        }
    }

    /// The state after `e` arrives.
    pub fn on_event(self, e: &SidecarEvent) -> (r: ScanState)
        ensures
            r == self.after(*e),
    {
        match self {
            ScanState::Scanning => match e {
                SidecarEvent::Error(_) => ScanState::Aborted,
                SidecarEvent::Stdout(bytes) => {
                    let line = decode_line(bytes);
                    match parse_announcement(line.as_str()) {
                        Some(p) => ScanState::Resolved(p),
                        None => ScanState::Scanning,
                    }
                },
                SidecarEvent::Other => ScanState::Scanning,
            },
            _ => self,
        }
    }

    /// The state after the stream ends.
    pub fn on_end(self) -> (r: ScanState)
        ensures
            r == self.at_end(),
    {
        match self {
            ScanState::Scanning => ScanState::Aborted,
            _ => self,
        }
    }

    /// Whether the scan has stopped.
    pub fn is_done(&self) -> (r: bool)
        ensures
            r == (*self != ScanState::Scanning),
    {
        match self {
            ScanState::Scanning => false,
            _ => true,
        }
    }
}

/// Where a scan from `s` over `events` (then the end of the stream) stops.
pub open spec fn run(s: ScanState, events: Seq<SidecarEvent>) -> ScanState
    decreases events.len(),
{
    if s != ScanState::Scanning {
        s
    } else if events.len() == 0 {
        s.at_end()
    } else {
        run(s.after(events[0]), events.drop_first())
    }
}

/// How many of `events` a scan from `s` takes before it stops.
pub open spec fn consumed(s: ScanState, events: Seq<SidecarEvent>) -> nat
    decreases events.len(),
{
    if s != ScanState::Scanning || events.len() == 0 {
        0
    } else {
        1 + consumed(s.after(events[0]), events.drop_first())
    }
}

/// The port that a cell holding `current` holds once a scan has stopped in `s`.
pub open spec fn port_after(current: u16, s: ScanState) -> u16 {
    match s {
        ScanState::Resolved(p) => after_resolve(current, p),
        _ => current,
    }
}

/// The port that a cell holding `current` holds after a scan over `events`.
pub open spec fn port_after_scan(current: u16, events: Seq<SidecarEvent>) -> u16 {
    port_after(current, run(ScanState::Scanning, events))
}

/// Records where a scan stopped: a resolved port goes into `port`.
pub fn settle(port: &mut BackendPort, s: ScanState)
    ensures
        final(port)@ == port_after(old(port)@, s),
{
    if let ScanState::Resolved(p) = s {
        port.resolve(p);
    }
}

/// Scans a whole recorded output stream, `events` followed by its end, and
/// records the outcome in `port`. Returns where the scan stopped and how
/// many events it took.
pub fn scan(port: &mut BackendPort, events: &Vec<SidecarEvent>) -> (r: (ScanState, usize))
    ensures
        r.0 == run(ScanState::Scanning, events@),
        r.1 == consumed(ScanState::Scanning, events@),
        final(port)@ == port_after_scan(old(port)@, events@),
{
    let n = events.len();
    let mut state = ScanState::Scanning;
    let mut i: usize = 0;
    assert(events@.subrange(0, n as int) =~= events@);
    while i < n && !state.is_done()
        invariant
            i <= n,
            n == events@.len(),
            run(ScanState::Scanning, events@) == run(state, events@.subrange(i as int, n as int)),
            consumed(ScanState::Scanning, events@) == i + consumed(
                state,
                events@.subrange(i as int, n as int),
            ),
        decreases n - i,
    {
        assert(events@.subrange(i as int, n as int).drop_first() =~= events@.subrange(
            i + 1,
            n as int,
        ));
        state = state.on_event(&events[i]);
        i = i + 1;
    }
    state = state.on_end();
    settle(port, state);
    (state, i)
}

/// A standard-output line that announces no port.
pub open spec fn is_plain_line(e: SidecarEvent) -> bool {
    e is Stdout && event_port(e) is None
}

/// Events that leave a scan in `Scanning` only delay it.
proof fn lemma_quiet_prefix(events: Seq<SidecarEvent>, k: int)
    requires
        0 <= k <= events.len(),
        forall|m: int| 0 <= m < k ==> ScanState::Scanning.after(#[trigger] events[m]) == ScanState::Scanning,
    ensures
        run(ScanState::Scanning, events) == run(
            ScanState::Scanning,
            events.subrange(k, events.len() as int),
        ),
        consumed(ScanState::Scanning, events) == k + consumed(
            ScanState::Scanning,
            events.subrange(k, events.len() as int),
        ),
    decreases k,
{
    if k == 0 {
        assert(events.subrange(0, events.len() as int) =~= events);
    } else {
        let rest = events.drop_first();
        assert(ScanState::Scanning.after(events[0]) == ScanState::Scanning);
        assert forall|m: int| 0 <= m < k - 1 implies ScanState::Scanning.after(#[trigger] rest[m])
            == ScanState::Scanning by {
            assert(rest[m] == events[m + 1]);
        }
        lemma_quiet_prefix(rest, k - 1);
        assert(rest.subrange(k - 1, rest.len() as int) =~= events.subrange(k, events.len() as int));
    }
}

/// One announcement line among plain lines: the scan stops at it, takes no
/// event after it, and the unresolved cell gets its port.
pub proof fn lemma_single_announcement(events: Seq<SidecarEvent>, k: int, port: u16)
    requires
        0 <= k < events.len(),
        events[k] is Stdout,
        event_port(events[k]) == Some(port),
        forall|m: int| 0 <= m < k ==> is_plain_line(#[trigger] events[m]),
    ensures
        run(ScanState::Scanning, events) == ScanState::Resolved(port),
        consumed(ScanState::Scanning, events) == k + 1,
        port_after_scan(0, events) == port,
{
    assert forall|m: int| 0 <= m < k implies ScanState::Scanning.after(#[trigger] events[m])
        == ScanState::Scanning by {
        assert(is_plain_line(events[m]));
    }
    lemma_quiet_prefix(events, k);
    let rest = events.subrange(k, events.len() as int);
    assert(rest[0] == events[k]);
    assert(ScanState::Scanning.after(rest[0]) == ScanState::Resolved(port));
    assert(run(ScanState::Resolved(port), rest.drop_first()) == ScanState::Resolved(port));
    assert(consumed(ScanState::Resolved(port), rest.drop_first()) == 0);
}

/// Of two announcement lines in a stream of lines, the first one is recorded
/// and the second is never reached.
pub proof fn lemma_first_announcement_wins(
    events: Seq<SidecarEvent>,
    i: int,
    j: int,
    first: u16,
    second: u16,
)
    requires
        0 <= i < j < events.len(),
        forall|m: int| 0 <= m < events.len() ==> (#[trigger] events[m]) is Stdout,
        event_port(events[i]) == Some(first),
        event_port(events[j]) == Some(second),
        forall|m: int| 0 <= m < i ==> event_port(#[trigger] events[m]) is None,
    ensures
        port_after_scan(0, events) == first,
        consumed(ScanState::Scanning, events) == i + 1 <= j,
{
    assert forall|m: int| 0 <= m < i implies is_plain_line(#[trigger] events[m]) by {
        assert(events[m] is Stdout);
        assert(event_port(events[m]) is None);
    }
    assert(events[i] is Stdout);
    lemma_single_announcement(events, i, first);
}

/// An error event before any announcement aborts the scan: the unresolved
/// cell stays at 0.
pub proof fn lemma_error_before_announcement(events: Seq<SidecarEvent>, k: int)
    requires
        0 <= k < events.len(),
        events[k] is Error,
        forall|m: int| 0 <= m < k ==> event_port(#[trigger] events[m]) is None,
    ensures
        run(ScanState::Scanning, events) == ScanState::Aborted,
        port_after_scan(0, events) == 0,
    decreases k,
{
    if !(events[0] is Error) {
        let rest = events.drop_first();
        assert(event_port(events[0]) is None);
        assert(ScanState::Scanning.after(events[0]) == ScanState::Scanning);
        assert forall|m: int| 0 <= m < k - 1 implies event_port(#[trigger] rest[m]) is None by {
            assert(rest[m] == events[m + 1]);
        }
        assert(rest[k - 1] == events[k]);
        lemma_error_before_announcement(rest, k - 1);
        assert(run(ScanState::Scanning, events) == run(ScanState::Scanning, rest));
    } else {
        assert(ScanState::Scanning.after(events[0]) == ScanState::Aborted);
        assert(run(ScanState::Aborted, events.drop_first()) == ScanState::Aborted);
    }
}

/// A stream that ends before any event aborts the scan: the unresolved cell
/// stays at 0.
pub proof fn lemma_empty_stream()
    ensures
        run(ScanState::Scanning, Seq::<SidecarEvent>::empty()) == ScanState::Aborted,
        consumed(ScanState::Scanning, Seq::<SidecarEvent>::empty()) == 0,
        port_after_scan(0, Seq::<SidecarEvent>::empty()) == 0,
{
}

} // verus!
