use vstd::prelude::*;
use crate::assembler::{ends_with_marker, frames_view, lemma_scan_bounds, scan, FrameAssembler};
use crate::wire::{encode_end, encode_frame, end_bytes, frame_bytes};

verus! {

/// Where a session stands.
#[derive(Clone, Copy, PartialEq, Eq, Structural, Debug)]
pub enum Phase {
    /// Opening the connection to the viewer.
    Connecting,
    /// Starting the capture process.
    Capturing,
    /// Reading capture output and sending frames.
    Streaming,
    /// The capture output ended: the end marker is sent, then the process stops.
    Ended,
    /// The session failed: waiting out the retry delay.
    Failed,
}

/// Why a session failed.
#[derive(Clone, Copy, PartialEq, Eq, Structural, Debug)]
pub enum Failure {
    /// The connection could not be opened.
    Connect,
    /// The capture process could not be started, or its output not obtained.
    CaptureLaunch,
    /// Reading the capture output failed.
    CaptureRead,
    /// Writing to the connection failed.
    TransportWrite,
}

/// What the driver reports back after performing an action.
pub enum Event {
    Connected,
    ConnectFailed,
    CaptureStarted,
    CaptureFailed,
    /// A read of the capture output returned these bytes (at least one).
    Chunk(Vec<u8>),
    /// A read of the capture output returned no bytes: the capture process closed it.
    CaptureEof,
    ReadFailed,
    /// The bytes of the last `Send` were written and flushed.
    Written,
    WriteFailed,
    /// The retry delay has passed.
    DelayElapsed,
}

/// An event as the state machine sees it.
pub enum EventModel {
    Connected,
    ConnectFailed,
    CaptureStarted,
    CaptureFailed,
    Chunk(Seq<u8>),
    CaptureEof,
    ReadFailed,
    Written,
    WriteFailed,
    DelayElapsed,
}

impl View for Event {
    type V = EventModel;

    open spec fn view(&self) -> EventModel {
        match self {
            Event::Connected => EventModel::Connected,
            Event::ConnectFailed => EventModel::ConnectFailed,
            Event::CaptureStarted => EventModel::CaptureStarted,
            Event::CaptureFailed => EventModel::CaptureFailed,
            Event::Chunk(c) => EventModel::Chunk(c@),
            Event::CaptureEof => EventModel::CaptureEof,
            Event::ReadFailed => EventModel::ReadFailed,
            Event::Written => EventModel::Written,
            Event::WriteFailed => EventModel::WriteFailed,
            Event::DelayElapsed => EventModel::DelayElapsed,
        }
    }
}

/// What the driver is asked to do next.
pub enum Action {
    /// Open the connection to the viewer.
    Connect,
    /// Wait this many seconds for the camera to warm up, then start the capture process.
    LaunchCapture { warmup_secs: u64 },
    /// Read the next chunk of capture output.
    Read,
    /// Write these bytes to the connection and flush it.
    Send(Vec<u8>),
    /// Report the failure, drop the connection and the capture process, and sleep.
    Sleep { secs: u64, cause: Failure },
    /// The session ended normally: stop.
    Exit,
}

/// An action as the state machine sees it.
pub enum ActionModel {
    Connect,
    LaunchCapture(u64),
    Read,
    Send(Seq<u8>),
    Sleep(u64, Failure),
    Exit,
}

impl View for Action {
    type V = ActionModel;

    open spec fn view(&self) -> ActionModel {
        match self {
            Action::Connect => ActionModel::Connect,
            Action::LaunchCapture { warmup_secs } => ActionModel::LaunchCapture(*warmup_secs),
            Action::Read => ActionModel::Read,
            Action::Send(b) => ActionModel::Send(b@),
            Action::Sleep { secs, cause } => ActionModel::Sleep(*secs, *cause),
            Action::Exit => ActionModel::Exit,
        }
    }
}

/// The supervisor's state: the phase, whether a `Send` awaits its outcome, the bytes
/// of the frame being assembled, the frames completed and not yet sent, and the fixed
/// delay used for warm-up and retry.
pub struct SupervisorState {
    pub phase: Phase,
    pub writing: bool,
    pub pending: Seq<u8>,
    pub queue: Seq<Seq<u8>>,
    pub delay: u64,
}

/// Partial frames exist only while streaming, a write is in flight only while
/// streaming or ending, a pending buffer never ends with a marker, and frames wait to
/// be sent only behind a write in flight, each a whole frame whose length fits the
/// header.
pub open spec fn state_wf(s: SupervisorState) -> bool {
    &&& !ends_with_marker(s.pending)
    &&& s.phase != Phase::Streaming ==> s.pending.len() == 0
    &&& s.writing ==> (s.phase == Phase::Streaming || s.phase == Phase::Ended)
    &&& s.queue.len() > 0 ==> (s.writing && s.phase == Phase::Streaming)
    &&& forall|i: int|
        0 <= i < s.queue.len() ==> {
            &&& ends_with_marker(#[trigger] s.queue[i])
            &&& s.queue[i].len() <= u32::MAX
        }
}

/// A fresh supervisor, about to connect.
pub open spec fn initial(delay: u64) -> SupervisorState {
    SupervisorState { phase: Phase::Connecting, writing: false, pending: Seq::empty(), queue: Seq::empty(), delay }
}

/// The events that answer the action issued in state `s`.
pub open spec fn accepts(s: SupervisorState, e: EventModel) -> bool {
    match s.phase {
        Phase::Connecting => e is Connected || e is ConnectFailed,
        Phase::Capturing => e is CaptureStarted || e is CaptureFailed,
        Phase::Streaming => if s.writing {
            e is Written || e is WriteFailed
        } else {
            match e {
                EventModel::Chunk(c) => s.pending.len() + c.len() <= u32::MAX,
                EventModel::CaptureEof => true,
                EventModel::ReadFailed => true,
                _ => false,
            }
        },
        Phase::Ended => s.writing && (e is Written || e is WriteFailed),
        Phase::Failed => e is DelayElapsed,
    }
}

/// Entering the failed phase: everything of the session is dropped, and the driver
/// sleeps for the retry delay.
pub open spec fn fail(s: SupervisorState, cause: Failure) -> (SupervisorState, ActionModel) {
    (
        SupervisorState { phase: Phase::Failed, writing: false, pending: Seq::empty(), queue: Seq::empty(), delay: s.delay },
        ActionModel::Sleep(s.delay, cause),
    )
}

/// The state machine's transition on an accepted event: the next state and action.
pub open spec fn next(s: SupervisorState, e: EventModel) -> (SupervisorState, ActionModel) {
    match e {
        EventModel::Connected => (
            SupervisorState { phase: Phase::Capturing, writing: false, pending: Seq::empty(), queue: Seq::empty(), delay: s.delay },
            ActionModel::LaunchCapture(s.delay),
        ),
        EventModel::ConnectFailed => fail(s, Failure::Connect),
        EventModel::CaptureStarted => (
            SupervisorState { phase: Phase::Streaming, writing: false, pending: Seq::empty(), queue: Seq::empty(), delay: s.delay },
            ActionModel::Read,
        ),
        EventModel::CaptureFailed => fail(s, Failure::CaptureLaunch),
        EventModel::Chunk(c) => {
            let (frames, buf) = scan(s.pending, c);
            if frames.len() > 0 {
                (
                    SupervisorState { phase: s.phase, writing: true, pending: buf, queue: frames.drop_first(), delay: s.delay },
                    ActionModel::Send(frame_bytes(frames[0])),
                )
            } else {
                (
                    SupervisorState { phase: s.phase, writing: false, pending: buf, queue: Seq::empty(), delay: s.delay },
                    ActionModel::Read,
                )
            }
        },
        EventModel::CaptureEof => (
            SupervisorState { phase: Phase::Ended, writing: true, pending: Seq::empty(), queue: Seq::empty(), delay: s.delay },
            ActionModel::Send(end_bytes()),
        ),
        EventModel::ReadFailed => fail(s, Failure::CaptureRead),
        EventModel::Written => if s.phase == Phase::Ended {
            (
                SupervisorState { phase: s.phase, writing: false, pending: s.pending, queue: s.queue, delay: s.delay },
                ActionModel::Exit,
            )
        } else if s.queue.len() > 0 {
            (
                SupervisorState { phase: s.phase, writing: true, pending: s.pending, queue: s.queue.drop_first(), delay: s.delay },
                ActionModel::Send(frame_bytes(s.queue[0])),
            )
        } else {
            (
                SupervisorState { phase: s.phase, writing: false, pending: s.pending, queue: s.queue, delay: s.delay },
                ActionModel::Read,
            )
        },
        EventModel::WriteFailed => fail(s, Failure::TransportWrite),
        EventModel::DelayElapsed => (initial(s.delay), ActionModel::Connect),
    }
}

/// Running the events in order from state `s`: the final state and the actions issued.
pub open spec fn run(s: SupervisorState, events: Seq<EventModel>) -> (SupervisorState, Seq<ActionModel>)
    decreases events.len(),
{
    if events.len() == 0 {
        (s, Seq::empty())
    } else {
        let (s1, a) = next(s, events[0]);
        let (s2, rest) = run(s1, events.drop_first());
        (s2, seq![a] + rest)
    }
}

/// Each event in turn answers the action issued before it.
pub open spec fn valid_run(s: SupervisorState, events: Seq<EventModel>) -> bool
    decreases events.len(),
{
    events.len() == 0 || (accepts(s, events[0]) && valid_run(next(s, events[0]).0, events.drop_first()))
}

/// `n` connection attempts that fail, each followed by the end of the retry delay.
pub open spec fn failed_connects(n: nat) -> Seq<EventModel>
    decreases n,
{
    if n == 0 {
        Seq::empty()
    } else {
        seq![EventModel::ConnectFailed, EventModel::DelayElapsed] + failed_connects((n - 1) as nat)
    }
}

/// The answer to `n` failed connection attempts: sleep for the delay, connect again.
pub open spec fn retries(n: nat, delay: u64) -> Seq<ActionModel>
    decreases n,
{
    if n == 0 {
        Seq::empty()
    } else {
        seq![ActionModel::Sleep(delay, Failure::Connect), ActionModel::Connect] + retries((n - 1) as nat, delay)
    }
}

/// How many times the actions ask to connect.
pub open spec fn connects(acts: Seq<ActionModel>) -> nat
    decreases acts.len(),
{
    if acts.len() == 0 {
        0
    } else {
        (if acts[0] is Connect { 1nat } else { 0nat }) + connects(acts.drop_first())
    }
}

proof fn lemma_connects_cons(a: ActionModel, rest: Seq<ActionModel>)
    ensures
        connects(seq![a] + rest) == (if a is Connect { 1nat } else { 0nat }) + connects(rest),
{
    assert((seq![a] + rest).drop_first() =~= rest);
}

proof fn lemma_run_cons(s: SupervisorState, e: EventModel, rest: Seq<EventModel>)
    ensures
        run(s, seq![e] + rest) == ({
            let (s1, a) = next(s, e);
            let (s2, acts) = run(s1, rest);
            (s2, seq![a] + acts)
        }),
        valid_run(s, seq![e] + rest) == (accepts(s, e) && valid_run(next(s, e).0, rest)),
{
    assert((seq![e] + rest).drop_first() =~= rest);
}

proof fn lemma_run_one(s: SupervisorState, e: EventModel)
    ensures
        run(s, seq![e]) == (next(s, e).0, seq![next(s, e).1]),
        valid_run(s, seq![e]) == accepts(s, e),
{
    assert(seq![e].drop_first() =~= Seq::<EventModel>::empty());
    let s1 = next(s, e).0;
    assert(run(s1, Seq::<EventModel>::empty()) == (s1, Seq::<ActionModel>::empty()));
    assert(valid_run(s1, Seq::<EventModel>::empty()));
    assert(seq![next(s, e).1] + Seq::<ActionModel>::empty() =~= seq![next(s, e).1]);
}

/// The transition keeps the supervisor's state well formed.
pub proof fn lemma_next_keeps_wf(s: SupervisorState, e: EventModel)
    requires
        state_wf(s),
        accepts(s, e),
    ensures
        state_wf(next(s, e).0),
{
    assert(!ends_with_marker(Seq::<u8>::empty()));
    match e {
        EventModel::Chunk(c) => {
            lemma_scan_bounds(s.pending, c);
            let fs = scan(s.pending, c).0;
            if fs.len() > 0 {
                assert forall|i: int| 0 <= i < fs.drop_first().len() implies {
                    &&& ends_with_marker(#[trigger] fs.drop_first()[i])
                    &&& fs.drop_first()[i].len() <= u32::MAX
                } by {
                    assert(fs.drop_first()[i] == fs[i + 1]);
                }
            }
        },
        EventModel::Written => {
            let q = s.queue;
            if q.len() > 0 {
                assert forall|i: int| 0 <= i < q.drop_first().len() implies {
                    &&& ends_with_marker(#[trigger] q.drop_first()[i])
                    &&& q.drop_first()[i].len() <= u32::MAX
                } by {
                    assert(q.drop_first()[i] == q[i + 1]);
                }
            }
        },
        _ => {},
    }
}

/// A capture that ends before its first byte yields no frame: the session goes to
/// its end and sends the zero end marker alone, then stops.
pub proof fn lemma_empty_capture(delay: u64)
    ensures
        ({
            let events = seq![EventModel::Connected, EventModel::CaptureStarted, EventModel::CaptureEof, EventModel::Written];
            &&& valid_run(initial(delay), events)
            &&& run(initial(delay), events) == (
                SupervisorState { phase: Phase::Ended, writing: false, pending: Seq::empty(), queue: Seq::empty(), delay },
                seq![ActionModel::LaunchCapture(delay), ActionModel::Read, ActionModel::Send(end_bytes()), ActionModel::Exit],
            )
        }),
{
    let e0 = EventModel::Connected;
    let e1 = EventModel::CaptureStarted;
    let e2 = EventModel::CaptureEof;
    let e3 = EventModel::Written;
    let s0 = initial(delay);
    let s1 = next(s0, e0).0;
    let s2 = next(s1, e1).0;
    let s3 = next(s2, e2).0;
    lemma_run_one(s3, e3);
    lemma_run_cons(s2, e2, seq![e3]);
    assert(seq![e2] + seq![e3] =~= seq![e2, e3]);
    lemma_run_cons(s1, e1, seq![e2, e3]);
    assert(seq![e1] + seq![e2, e3] =~= seq![e1, e2, e3]);
    lemma_run_cons(s0, e0, seq![e1, e2, e3]);
    assert(seq![e0] + seq![e1, e2, e3] =~= seq![e0, e1, e2, e3]);
    let acts = seq![ActionModel::LaunchCapture(delay), ActionModel::Read, ActionModel::Send(end_bytes()), ActionModel::Exit];
    assert(run(s0, seq![e0, e1, e2, e3]).1 =~= acts);
    assert(run(s0, seq![e0, e1, e2, e3]).0.pending =~= Seq::<u8>::empty());
}

/// A write that fails while a frame (or the end marker) is in flight fails the
/// session; once the retry delay has passed the supervisor connects again from
/// exactly the state of a fresh start, so nothing of the lost frame is kept or sent
/// again.
pub proof fn lemma_write_failure_restarts(s: SupervisorState)
    requires
        state_wf(s),
        s.writing,
    ensures
        ({
            let events = seq![EventModel::WriteFailed, EventModel::DelayElapsed];
            &&& valid_run(s, events)
            &&& run(s, events) == (
                initial(s.delay),
                seq![ActionModel::Sleep(s.delay, Failure::TransportWrite), ActionModel::Connect],
            )
        }),
{
    let e0 = EventModel::WriteFailed;
    let e1 = EventModel::DelayElapsed;
    let s1 = next(s, e0).0;
    lemma_run_one(s1, e1);
    lemma_run_cons(s, e0, seq![e1]);
    assert(seq![e0] + seq![e1] =~= seq![e0, e1]);
    assert(run(s, seq![e0, e1]).1 =~= seq![ActionModel::Sleep(s.delay, Failure::TransportWrite), ActionModel::Connect]);
}

/// Whatever the number `n` of failed connection attempts, each is answered by a sleep
/// of the fixed delay and a new attempt, and the supervisor is back at a fresh start:
/// with the first attempt, it has tried to connect `n + 1` times and never gives up.
pub proof fn lemma_unbounded_retry(delay: u64, n: nat)
    ensures
        valid_run(initial(delay), failed_connects(n)),
        run(initial(delay), failed_connects(n)) == (initial(delay), retries(n, delay)),
        connects(seq![ActionModel::Connect] + retries(n, delay)) == n + 1,
    decreases n,
{
    let s = initial(delay);
    if n > 0 {
        let rest = failed_connects((n - 1) as nat);
        let tail = retries((n - 1) as nat, delay);
        lemma_unbounded_retry(delay, (n - 1) as nat);
        let e0 = EventModel::ConnectFailed;
        let e1 = EventModel::DelayElapsed;
        let s1 = next(s, e0).0;
        assert(next(s1, e1).0 == s) by {
            assert(next(s1, e1).0.pending =~= s.pending);
        }
        lemma_run_cons(s1, e1, rest);
        lemma_run_cons(s, e0, seq![e1] + rest);
        assert(failed_connects(n) =~= seq![e0] + (seq![e1] + rest));
        let a0 = ActionModel::Sleep(delay, Failure::Connect);
        let a1 = ActionModel::Connect;
        assert(retries(n, delay) =~= seq![a0] + (seq![a1] + tail));
        lemma_connects_cons(a1, tail);
        lemma_connects_cons(a0, seq![a1] + tail);
        lemma_connects_cons(a1, retries(n, delay));
    } else {
        assert(failed_connects(0) =~= Seq::<EventModel>::empty());
        assert(retries(0, delay) =~= Seq::<ActionModel>::empty());
        lemma_connects_cons(ActionModel::Connect, Seq::<ActionModel>::empty());
    }
}

/// Drives one capture-and-forward session after another: connects, starts the capture,
/// assembles frames and sends them, and after any failure waits and starts over.
pub struct Supervisor {
    phase: Phase,
    writing: bool,
    assembler: FrameAssembler,
    queue: Vec<Vec<u8>>,
    delay_secs: u64,
}

impl View for Supervisor {
    type V = SupervisorState;

    closed spec fn view(&self) -> SupervisorState {
        SupervisorState {
            phase: self.phase,
            writing: self.writing,
            pending: self.assembler@,
            queue: frames_view(self.queue@),
            delay: self.delay_secs,
        }
    }
}

impl Supervisor {
    pub closed spec fn wf(&self) -> bool {
        self.assembler.wf() && state_wf(self@)
    }

    /// A supervisor that waits `delay_secs` seconds for the camera to warm up and
    /// between failed sessions, with the first action: connect.
    pub fn start(delay_secs: u64) -> (r: (Supervisor, Action))
        ensures
            r.0.wf(),
            r.0@ == initial(delay_secs),
            r.1@ == ActionModel::Connect,
    {
        let s = Supervisor {
            phase: Phase::Connecting,
            writing: false,
            assembler: FrameAssembler::new(),
            queue: Vec::new(),
            delay_secs,
        };
        assert(s@.queue =~= Seq::<Seq<u8>>::empty());
        (s, Action::Connect)
    }

    /// The current phase.
    pub fn phase(&self) -> (r: Phase)
        ensures
            r == self@.phase,
    {
        self.phase
    }

    /// The fixed warm-up and retry delay, in seconds.
    pub fn delay_secs(&self) -> (r: u64)
        ensures
            r == self@.delay,
    {
        self.delay_secs
    }

    /// Whether `event` answers the action last issued.
    pub fn accepts(&self, event: &Event) -> (r: bool)
        requires
            self.wf(),
        ensures
            r == accepts(self@, event@),
    {
        match self.phase {
            Phase::Connecting => matches!(event, Event::Connected | Event::ConnectFailed),
            Phase::Capturing => matches!(event, Event::CaptureStarted | Event::CaptureFailed),
            Phase::Streaming => if self.writing {
                matches!(event, Event::Written | Event::WriteFailed)
            } else {
                match event {
                    Event::Chunk(c) => {
                        let n = self.assembler.pending_len();
                        n <= u32::MAX as usize && c.len() <= u32::MAX as usize - n
                    },
                    Event::CaptureEof => true,
                    Event::ReadFailed => true,
                    _ => false,
                }
            },
            Phase::Ended => self.writing && matches!(event, Event::Written | Event::WriteFailed),
            Phase::Failed => matches!(event, Event::DelayElapsed),
        }
    }

    fn fail(&mut self, cause: Failure) -> (r: Action)
        requires
            old(self).wf(),
        ensures
            final(self).wf(),
            (final(self)@, r@) == fail(old(self)@, cause),
    {
        self.phase = Phase::Failed;
        self.writing = false;
        self.assembler.reset();
        self.queue = Vec::new();
        assert(self@.queue =~= Seq::<Seq<u8>>::empty());
        Action::Sleep { secs: self.delay_secs, cause }
    }

    /// Takes the outcome of the last action and returns the next one.
    pub fn handle(&mut self, event: Event) -> (r: Action)
        requires
            old(self).wf(),
            accepts(old(self)@, event@),
        ensures
            final(self).wf(),
            (final(self)@, r@) == next(old(self)@, event@),
    {
        let ghost e = event@;
        let r = match event {
            Event::Connected => {
                self.phase = Phase::Capturing;
                Action::LaunchCapture { warmup_secs: self.delay_secs }
            },
            Event::ConnectFailed => self.fail(Failure::Connect),
            Event::CaptureStarted => {
                self.phase = Phase::Streaming;
                Action::Read
            },
            Event::CaptureFailed => self.fail(Failure::CaptureLaunch),
            Event::Chunk(c) => {
                proof {
                    lemma_scan_bounds(self.assembler@, c@);
                }
                let mut frames = self.assembler.push_chunk(&c);
                if frames.len() > 0 {
                    let ghost all = frames@;
                    let first = frames.remove(0);
                    assert(frames_view(frames@) =~= frames_view(all).drop_first());
                    assert(frames_view(all)[0] == first@);
                    self.queue = frames;
                    self.writing = true;
                    Action::Send(encode_frame(&first))
                } else {
                    assert(frames_view(frames@) =~= Seq::<Seq<u8>>::empty());
                    Action::Read
                }
            },
            Event::CaptureEof => {
                self.phase = Phase::Ended;
                self.writing = true;
                self.assembler.reset();
                Action::Send(encode_end())
            },
            Event::ReadFailed => self.fail(Failure::CaptureRead),
            Event::Written => {
                if self.phase == Phase::Ended {
                    self.writing = false;
                    Action::Exit
                } else if self.queue.len() > 0 {
                    let ghost all = self.queue@;
                    let next_frame = self.queue.remove(0);
                    assert(frames_view(self.queue@) =~= frames_view(all).drop_first());
                    assert(frames_view(all)[0] == next_frame@);
                    Action::Send(encode_frame(&next_frame))
                } else {
                    self.writing = false;
                    Action::Read
                }
            },
            Event::WriteFailed => self.fail(Failure::TransportWrite),
            Event::DelayElapsed => {
                self.phase = Phase::Connecting;
                Action::Connect
            },
        };
        assert(self@.pending =~= next(old(self)@, e).0.pending);
        assert(self@.queue =~= next(old(self)@, e).0.queue);
        r
    }
}

} // verus!
