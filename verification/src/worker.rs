//! The decisions of the device worker: which command is accepted in which state, which state
//! follows each step of a job, and what is reported at each step.
//!
//! The worker's outside work — opening transports, writing bytes, polling the machine, waiting
//! between polls — is done by whoever runs it. Each method here is one decision between two
//! pieces of that work, and returns the events to publish, in order. Every event carries the
//! status that held when it was sent.
use vstd::prelude::*;
use crate::status::{
    actions_of, no_actions, status_of, status_spec, Actions, CutStatus, CutStatusView, DeviceError,
    DeviceErrorView, DeviceState, DeviceStateView, Ended,
};
use crate::transport::{TransportError, TransportErrorView};
use crate::status::device_error_of;
use crate::text::push_chars;

verus! {

/// The job id lifecycle events (connect, disconnect, clearing a cancelled rest state) carry:
/// they belong to no job. Job ids start at 1.
pub const NO_JOB: u64 = 0;

/// How many bytes go to the transport at a time while sending a pass.
pub const WRITE_CHUNK: usize = 4096;

/// What an event reports.
#[derive(Clone, Debug)]
pub enum DeviceEventKind {
    /// The event's status is what changed.
    StateChanged,
    Progress { pass_index: usize, submitted_bytes: usize, total_bytes: usize },
    PassComplete(usize),
    JobComplete,
    Failed(DeviceError),
}

/// An event and the status that held when it was sent.
#[derive(Clone, Debug)]
pub struct DeviceEvent {
    pub job_id: u64,
    pub kind: DeviceEventKind,
    pub status: CutStatus,
}

/// A `DeviceEventKind` with its error as characters.
pub enum DeviceEventKindView {
    StateChanged,
    Progress { pass_index: usize, submitted_bytes: usize, total_bytes: usize },
    PassComplete(usize),
    JobComplete,
    Failed(DeviceErrorView),
}

/// A `DeviceEvent` with its text as characters.
pub struct DeviceEventView {
    pub job_id: u64,
    pub kind: DeviceEventKindView,
    pub status: CutStatusView,
}

impl View for DeviceEventKind {
    type V = DeviceEventKindView;

    open spec fn view(&self) -> DeviceEventKindView {
        match self {
            DeviceEventKind::StateChanged => DeviceEventKindView::StateChanged,
            DeviceEventKind::Progress { pass_index, submitted_bytes, total_bytes } =>
                DeviceEventKindView::Progress {
                pass_index: *pass_index,
                submitted_bytes: *submitted_bytes,
                total_bytes: *total_bytes,
            },
            DeviceEventKind::PassComplete(i) => DeviceEventKindView::PassComplete(*i),
            DeviceEventKind::JobComplete => DeviceEventKindView::JobComplete,
            DeviceEventKind::Failed(e) => DeviceEventKindView::Failed(e@),
        }
    }
}

impl View for DeviceEvent {
    type V = DeviceEventView;

    open spec fn view(&self) -> DeviceEventView {
        DeviceEventView { job_id: self.job_id, kind: self.kind@, status: self.status@ }
    }
}

/// The event reporting `kind` for `job_id` while the device is in `state`.
pub open spec fn report(
    job_id: u64,
    kind: DeviceEventKindView,
    state: DeviceStateView,
    total_passes: usize,
    ended: Option<Ended>,
) -> DeviceEventView {
    DeviceEventView { job_id, kind, status: status_spec(state, total_passes, ended) }
}

/// The events a sequence of reports becomes.
pub open spec fn views(events: Seq<DeviceEvent>) -> Seq<DeviceEventView> {
    events.map_values(|e: DeviceEvent| e@)
}

/// A job the worker is running or holding: its id, how many passes it has, and the pass it is
/// at.
#[derive(Clone, Copy, Debug, PartialEq, Eq, Structural)]
pub struct ActiveJob {
    pub job_id: u64,
    pub total_passes: usize,
    pub pass_index: usize,
}

/// What closes a finished pass: a park between passes, or the end of the session after the
/// last one.
#[derive(Clone, Copy, Debug, PartialEq, Eq, Structural)]
pub enum PassClose {
    Park,
    EndSession,
}

/// The close a pass `index` of `total` owes: park unless it is the last.
pub open spec fn close_for(index: usize, total: usize) -> PassClose {
    if index + 1 < total {
        PassClose::Park
    } else {
        PassClose::EndSession
    }
}

/// The worker's memory: the device state, the outcome of the last job that ran to the end, the
/// next job id, the job being run, the job parked between commands, and the pass count of the
/// last job begun.
pub struct Worker {
    state: DeviceState,
    ended: Option<Ended>,
    next_job_id: u64,
    running: Option<ActiveJob>,
    parked: Option<ActiveJob>,
    last_total: usize,
}

/// A `Worker` as values.
pub struct WorkerView {
    pub state: DeviceStateView,
    pub ended: Option<Ended>,
    pub next_job_id: u64,
    pub running: Option<ActiveJob>,
    pub parked: Option<ActiveJob>,
    pub last_total: usize,
}

impl View for Worker {
    type V = WorkerView;

    closed spec fn view(&self) -> WorkerView {
        WorkerView {
            state: self.state@,
            ended: self.ended,
            next_job_id: self.next_job_id,
            running: self.running,
            parked: self.parked,
            last_total: self.last_total,
        }
    }
}

/// A cut is accepted at rest, and after a cancel whose stop a poll actually observed.
pub open spec fn cut_accepted(s: DeviceStateView) -> bool {
    s is Idle || (s matches DeviceStateView::Cancelled { completion_known, .. } && completion_known)
}

/// A connect is accepted only with no device connected, or after a fault.
pub open spec fn connect_accepted(s: DeviceStateView) -> bool {
    s is Disconnected || s is Error
}

/// Whether the parked job matches the state it is parked in.
pub open spec fn parked_matches(s: DeviceStateView, p: Option<ActiveJob>) -> bool {
    match p {
        Some(j) => j.pass_index < j.total_passes && j.job_id >= 1 && match s {
            DeviceStateView::WaitingForColorSwap { job_id, next_pass_index } => job_id == j.job_id
                && next_pass_index == j.pass_index,
            DeviceStateView::AwaitingCompletion { job_id, pass_index } => job_id == j.job_id
                && pass_index == j.pass_index,
            _ => false,
        },
        None => !(s is WaitingForColorSwap || s is AwaitingCompletion),
    }
}

/// Between commands: no job is running, a job is parked exactly when the state says one waits,
/// and no state of a step in progress remains.
pub open spec fn at_rest(w: WorkerView) -> bool {
    &&& w.next_job_id >= 1
    &&& w.running is None
    &&& parked_matches(w.state, w.parked)
    &&& !(w.state is Transmitting || w.state is CancelRequested || w.state is Stopping
        || w.state is Connecting || w.state is Disconnecting)
}

/// Inside a job: it is running, nothing is parked, and it is at a real pass.
pub open spec fn in_job(w: WorkerView) -> bool {
    &&& w.next_job_id >= 1
    &&& w.parked is None
    &&& w.running matches Some(j) && j.pass_index < j.total_passes && j.job_id >= 1
}

/// A resume is accepted while a job waits for a colour swap.
pub open spec fn resume_accepted(w: WorkerView) -> bool {
    w.state is WaitingForColorSwap && w.parked is Some
}

/// A confirm is accepted while a job waits on its operator.
pub open spec fn confirm_accepted(w: WorkerView) -> bool {
    w.state is AwaitingCompletion && w.parked is Some
}

/// A cancel acts on a parked job, or on one being sent.
pub open spec fn cancel_acts(w: WorkerView) -> bool {
    w.parked is Some || w.state is Transmitting
}

/// `w` with the device in state `s`.
pub open spec fn with_state(w: WorkerView, s: DeviceStateView) -> WorkerView {
    WorkerView { state: s, ..w }
}

/// `w` after a lifecycle transition to `s`, which forgets the last job's outcome.
pub open spec fn lifecycle(w: WorkerView, s: DeviceStateView) -> WorkerView {
    WorkerView { state: s, ended: None, ..w }
}

/// The report of a lifecycle transition to `s`: no job, no pass count, no outcome.
pub open spec fn lifecycle_event(s: DeviceStateView) -> DeviceEventView {
    report(NO_JOB, DeviceEventKindView::StateChanged, s, 0, None)
}

/// `w` once disconnected: nothing parked, nothing remembered.
pub open spec fn disconnected(w: WorkerView) -> WorkerView {
    WorkerView { state: DeviceStateView::Disconnected, ended: None, parked: None, ..w }
}

/// The state a finished connect leaves.
pub open spec fn connected_state(outcome: Result<(), DeviceErrorView>) -> DeviceStateView {
    match outcome {
        Ok(()) => DeviceStateView::Idle,
        Err(e) => DeviceStateView::Error(e),
    }
}

/// An outcome with its error as characters.
pub open spec fn outcome_view(outcome: Result<(), DeviceError>) -> Result<(), DeviceErrorView> {
    match outcome {
        Ok(()) => Ok(()),
        Err(e) => Err(e@),
    }
}

/// `w` once a cut of `total_passes` passes has started: at `Idle`, with the next id taken and
/// pass 0 to run.
pub open spec fn cut_started(w: WorkerView, total_passes: usize) -> WorkerView {
    WorkerView {
        state: DeviceStateView::Idle,
        ended: None,
        next_job_id: (w.next_job_id + 1) as u64,
        running: Some(ActiveJob { job_id: w.next_job_id, total_passes, pass_index: 0 }),
        parked: None,
        last_total: total_passes,
    }
}

/// What starting a cut reports: leaving a cancelled rest state, or nothing.
pub open spec fn cut_events(s: DeviceStateView) -> Seq<DeviceEventView> {
    if s is Cancelled {
        seq![lifecycle_event(DeviceStateView::Idle)]
    } else {
        Seq::empty()
    }
}

/// The running job of `w`.
pub open spec fn job_of(w: WorkerView) -> ActiveJob {
    w.running->0
}

/// The report of `kind` for the running job of `w`, in state `s`.
pub open spec fn job_event(w: WorkerView, kind: DeviceEventKindView, s: DeviceStateView) -> DeviceEventView {
    report(job_of(w).job_id, kind, s, job_of(w).total_passes, w.ended)
}

/// The state of the running job sending `submitted` of `total` bytes.
pub open spec fn sending(j: ActiveJob, submitted: usize, total: usize) -> DeviceStateView {
    DeviceStateView::Transmitting {
        job_id: j.job_id,
        pass_index: j.pass_index,
        submitted_bytes: submitted,
        total_bytes: total,
    }
}

/// The progress a sending state reports.
pub open spec fn progress_of(s: DeviceStateView) -> DeviceEventKindView {
    DeviceEventKindView::Progress {
        pass_index: s->Transmitting_pass_index,
        submitted_bytes: s->Transmitting_submitted_bytes,
        total_bytes: s->Transmitting_total_bytes,
    }
}

/// `w` with its running job parked, awaiting its operator.
pub open spec fn awaiting(w: WorkerView) -> WorkerView {
    WorkerView {
        state: DeviceStateView::AwaitingCompletion {
            job_id: job_of(w).job_id,
            pass_index: job_of(w).pass_index,
        },
        running: None,
        parked: w.running,
        ..w
    }
}

/// `w` once its running job's pass is closed: parked for a colour swap at the next pass, or
/// completed and at rest on `Idle`.
pub open spec fn after_close(w: WorkerView) -> WorkerView {
    let j = job_of(w);
    if j.pass_index + 1 < j.total_passes {
        WorkerView {
            state: DeviceStateView::WaitingForColorSwap {
                job_id: j.job_id,
                next_pass_index: (j.pass_index + 1) as usize,
            },
            running: None,
            parked: Some(ActiveJob { pass_index: (j.pass_index + 1) as usize, ..j }),
            ..w
        }
    } else {
        WorkerView { state: DeviceStateView::Idle, ended: Some(Ended::Completed), running: None, ..w }
    }
}

/// What closing the running job's pass reports.
pub open spec fn close_events(w: WorkerView) -> Seq<DeviceEventView> {
    let j = job_of(w);
    if j.pass_index + 1 < j.total_passes {
        seq![job_event(w, DeviceEventKindView::StateChanged, after_close(w).state)]
    } else {
        seq![
            job_event(w, DeviceEventKindView::JobComplete, w.state),
            report(j.job_id, DeviceEventKindView::StateChanged, DeviceStateView::Idle, 0, Some(Ended::Completed)),
        ]
    }
}

/// `w` once its running job failed with `e`.
pub open spec fn failed(w: WorkerView, e: DeviceErrorView) -> WorkerView {
    WorkerView { state: DeviceStateView::Error(e), running: None, ..w }
}

/// What a failure reports: `Failed` in the state the job died in, then the fault.
pub open spec fn fail_events(w: WorkerView, e: DeviceErrorView) -> Seq<DeviceEventView> {
    seq![
        job_event(w, DeviceEventKindView::Failed(e), w.state),
        report(job_of(w).job_id, DeviceEventKindView::StateChanged, DeviceStateView::Error(e), 0, w.ended),
    ]
}

/// What beginning a cancel reports.
pub open spec fn cancel_events(w: WorkerView) -> Seq<DeviceEventView> {
    seq![
        job_event(w, DeviceEventKindView::StateChanged, DeviceStateView::CancelRequested { job_id: job_of(w).job_id }),
        job_event(w, DeviceEventKindView::StateChanged, DeviceStateView::Stopping { job_id: job_of(w).job_id }),
    ]
}

/// `w` once its running job rests cancelled.
pub open spec fn cancelled(w: WorkerView, submitted: usize, known: bool) -> WorkerView {
    WorkerView {
        state: DeviceStateView::Cancelled {
            job_id: job_of(w).job_id,
            pass_index: job_of(w).pass_index,
            submitted_bytes: submitted,
            completion_known: known,
        },
        running: None,
        ..w
    }
}

/// The pass count a status is reported against: the running job's, else the parked one's,
/// else that of the last job begun, which a cancelled job still reports its pass against.
pub open spec fn reported_total(w: WorkerView) -> usize {
    match w.running {
        Some(j) => j.total_passes,
        None => match w.parked {
            Some(j) => j.total_passes,
            None => w.last_total,
        },
    }
}

/// A sending state with `len` more bytes submitted.
pub open spec fn advanced(s: DeviceStateView, len: usize) -> DeviceStateView {
    DeviceStateView::Transmitting {
        job_id: s->Transmitting_job_id,
        pass_index: s->Transmitting_pass_index,
        submitted_bytes: (s->Transmitting_submitted_bytes + len) as usize,
        total_bytes: s->Transmitting_total_bytes,
    }
}

/// `w` with its parked job running again.
pub open spec fn unparked(w: WorkerView) -> WorkerView {
    WorkerView { running: w.parked, parked: None, ..w }
}

impl Worker {
    /// A worker with nothing connected.
    pub fn new() -> (w: Worker)
        ensures
            w@.state == DeviceStateView::Disconnected,
            w@.ended is None,
            w@.next_job_id == 1,
            w@.running is None,
            w@.parked is None,
            at_rest(w@),
    {
        Worker {
            state: DeviceState::Disconnected,
            ended: None,
            next_job_id: 1,
            running: None,
            parked: None,
            last_total: 0,
        }
    }

    /// The device state, as the worker holds it.
    pub fn state(&self) -> (s: DeviceState)
        ensures
            s@ == self@.state,
    {
        self.state.duplicate()
    }

    /// What is reported now: the state, counted against the passes of the job in hand.
    pub fn status(&self) -> (s: CutStatus)
        ensures
            s@ == status_spec(self@.state, reported_total(self@), self@.ended),
    {
        let total = match self.running {
            Some(j) => j.total_passes,
            None => match self.parked {
                Some(j) => j.total_passes,
                None => self.last_total,
            },
        };
        status_of(&self.state, total, self.ended)
    }

    /// The job being run, if any.
    pub fn running(&self) -> (j: Option<ActiveJob>)
        ensures
            j == self@.running,
    {
        self.running
    }

    /// Whether another job can still be given an id of its own.
    pub fn can_number_another_job(&self) -> (r: bool)
        ensures
            r == (self@.next_job_id < u64::MAX),
    {
        self.next_job_id < u64::MAX
    }

    /// Reports `kind` for `job_id` in the current state.
    fn emit(&self, job_id: u64, kind: DeviceEventKind, total_passes: usize) -> (e: DeviceEvent)
        ensures
            e@ == report(job_id, kind@, self@.state, total_passes, self@.ended),
    {
        DeviceEvent { job_id, kind, status: status_of(&self.state, total_passes, self.ended) }
    }

    /// A connect was asked for. Refused as `Busy` unless nothing is connected or the device has
    /// failed; otherwise the device is `Connecting`, and the caller opens the transport next.
    pub fn connect_requested(&mut self) -> (r: Result<Vec<DeviceEvent>, DeviceError>)
        requires
            at_rest(old(self)@),
        ensures
            connect_accepted(old(self)@.state) ==> (r is Ok && final(self)@ == lifecycle(
                old(self)@,
                DeviceStateView::Connecting,
            ) && views(r->Ok_0@) == seq![lifecycle_event(DeviceStateView::Connecting)]),
            !connect_accepted(old(self)@.state) ==> (r matches Err(e) && e@ == DeviceErrorView::Busy
                && final(self)@ == old(self)@),
    {
        match self.state {
            DeviceState::Disconnected | DeviceState::Error(_) => {},
            _ => {
                return Err(DeviceError::Busy);
            },
        }
        self.ended = None;
        self.state = DeviceState::Connecting;
        let mut events = Vec::new();
        events.push(self.emit(NO_JOB, DeviceEventKind::StateChanged, 0));
        assert(views(events@) =~= seq![lifecycle_event(DeviceStateView::Connecting)]);
        Ok(events)
    }

    /// The transport and driver were opened (and a candidate device answered its probe), or
    /// they were not: the device is `Idle`, or failed with the reason.
    pub fn connect_finished(&mut self, outcome: Result<(), DeviceError>) -> (events: Vec<DeviceEvent>)
        requires
            old(self)@.state is Connecting,
            old(self)@.next_job_id >= 1,
            old(self)@.running is None,
            old(self)@.parked is None,
        ensures
            final(self)@ == lifecycle(old(self)@, connected_state(outcome_view(outcome))),
            at_rest(final(self)@),
            views(events@) == seq![lifecycle_event(final(self)@.state)],
    {
        self.ended = None;
        self.state = match outcome {
            Ok(()) => DeviceState::Idle,
            Err(e) => DeviceState::Error(e),
        };
        let mut events = Vec::new();
        events.push(self.emit(NO_JOB, DeviceEventKind::StateChanged, 0));
        assert(views(events@) =~= seq![lifecycle_event(self@.state)]);
        events
    }

    /// A disconnect: `Disconnecting`, then `Disconnected`, dropping any parked job. Always
    /// accepted, from any resting state.
    pub fn disconnect(&mut self) -> (events: Vec<DeviceEvent>)
        requires
            at_rest(old(self)@),
        ensures
            final(self)@ == disconnected(old(self)@),
            at_rest(final(self)@),
            views(events@) == seq![
                lifecycle_event(DeviceStateView::Disconnecting),
                lifecycle_event(DeviceStateView::Disconnected),
            ],
    {
        let mut events = Vec::new();
        self.ended = None;
        self.state = DeviceState::Disconnecting;
        events.push(self.emit(NO_JOB, DeviceEventKind::StateChanged, 0));
        self.parked = None;
        self.state = DeviceState::Disconnected;
        events.push(self.emit(NO_JOB, DeviceEventKind::StateChanged, 0));
        assert(views(events@) =~= seq![
            lifecycle_event(DeviceStateView::Disconnecting),
            lifecycle_event(DeviceStateView::Disconnected),
        ]);
        events
    }

    /// A cut of `total_passes` passes was asked for. Refused as `Busy` unless the device is at
    /// rest (`Idle`, or cancelled with its stop observed), and refused as an I/O error when
    /// there are no passes. Otherwise a cancelled rest state is left for `Idle`, the job gets the
    /// next id, the last job's outcome is forgotten, and pass 0 is to be run.
    pub fn cut_requested(&mut self, total_passes: usize) -> (r: Result<(u64, Vec<DeviceEvent>), DeviceError>)
        requires
            at_rest(old(self)@),
            old(self)@.next_job_id < u64::MAX,
        ensures
            !cut_accepted(old(self)@.state) ==> (r matches Err(e) && e@ == DeviceErrorView::Busy
                && final(self)@ == old(self)@),
            cut_accepted(old(self)@.state) && total_passes == 0 ==> (r matches Err(e) && e@
                == DeviceErrorView::Io("cut: no passes"@) && final(self)@ == old(self)@),
            cut_accepted(old(self)@.state) && total_passes > 0 ==> (r matches Ok(p) && p.0
                == old(self)@.next_job_id && views(p.1@) == cut_events(old(self)@.state)),
            cut_accepted(old(self)@.state) && total_passes > 0 ==> final(self)@ == cut_started(
                old(self)@,
                total_passes,
            ) && in_job(final(self)@),
    {
        let was_cancelled = match self.state {
            DeviceState::Idle => false,
            DeviceState::Cancelled { completion_known: true, .. } => true,
            _ => {
                return Err(DeviceError::Busy);
            },
        };
        if total_passes == 0 {
            let mut m = String::new();
            m.append("cut: no passes");
            return Err(DeviceError::Io(m));
        }
        let mut events = Vec::new();
        if was_cancelled {
            self.ended = None;
            self.state = DeviceState::Idle;
            events.push(self.emit(NO_JOB, DeviceEventKind::StateChanged, 0));
            assert(views(events@) =~= seq![lifecycle_event(DeviceStateView::Idle)]);
        } else {
            assert(views(events@) =~= Seq::<DeviceEventView>::empty());
        }
        let job_id = self.next_job_id;
        self.next_job_id = self.next_job_id + 1;
        self.ended = None;
        self.running = Some(ActiveJob { job_id, total_passes, pass_index: 0 });
        self.last_total = total_passes;
        Ok((job_id, events))
    }

    /// The running pass's bytes are about to go out: the device is `Transmitting`, with none of
    /// them submitted yet.
    pub fn transmit_started(&mut self, total_bytes: usize) -> (e: DeviceEvent)
        requires
            in_job(old(self)@),
        ensures
            final(self)@ == with_state(old(self)@, sending(job_of(old(self)@), 0, total_bytes)),
            e@ == job_event(old(self)@, DeviceEventKindView::StateChanged, final(self)@.state),
            in_job(final(self)@),
    {
        let j = self.running.unwrap();
        self.state = DeviceState::Transmitting {
            job_id: j.job_id,
            pass_index: j.pass_index,
            submitted_bytes: 0,
            total_bytes,
        };
        self.emit(j.job_id, DeviceEventKind::StateChanged, j.total_passes)
    }

    /// One chunk of `len` bytes was accepted by the transport: the submitted count grows and a
    /// progress event goes out.
    pub fn chunk_sent(&mut self, len: usize) -> (e: DeviceEvent)
        requires
            in_job(old(self)@),
            old(self)@.state is Transmitting,
            old(self)@.state->Transmitting_submitted_bytes + len
                <= old(self)@.state->Transmitting_total_bytes,
        ensures
            final(self)@ == with_state(old(self)@, advanced(old(self)@.state, len)),
            e@ == job_event(old(self)@, progress_of(final(self)@.state), final(self)@.state),
            in_job(final(self)@),
    {
        let j = self.running.unwrap();
        match self.state {
            DeviceState::Transmitting { job_id, pass_index, submitted_bytes, total_bytes } => {
                let sub = submitted_bytes + len;
                self.state = DeviceState::Transmitting {
                    job_id,
                    pass_index,
                    submitted_bytes: sub,
                    total_bytes,
                };
                self.emit(
                    j.job_id,
                    DeviceEventKind::Progress { pass_index, submitted_bytes: sub, total_bytes },
                    j.total_passes,
                )
            },
            _ => {
                proof {
                    assert(false);
                }
                self.emit(j.job_id, DeviceEventKind::StateChanged, j.total_passes)
            },
        }
    }

    /// The machine cannot be polled, so the pass waits for its operator: the job parks in
    /// `AwaitingCompletion`.
    pub fn pass_needs_confirm(&mut self) -> (e: DeviceEvent)
        requires
            in_job(old(self)@),
        ensures
            final(self)@ == awaiting(old(self)@),
            e@ == job_event(old(self)@, DeviceEventKindView::StateChanged, final(self)@.state),
            at_rest(final(self)@),
    {
        let j = self.running.unwrap();
        self.state = DeviceState::AwaitingCompletion { job_id: j.job_id, pass_index: j.pass_index };
        let e = self.emit(j.job_id, DeviceEventKind::StateChanged, j.total_passes);
        self.running = None;
        self.parked = Some(j);
        e
    }

    /// The running pass finished: `PassComplete` goes out in the state the pass ended in, and
    /// the caller writes the close this returns — a park unless it was the last pass.
    pub fn pass_ready(&self) -> (r: (DeviceEvent, PassClose))
        requires
            in_job(self@),
        ensures
            r.0@ == job_event(self@, DeviceEventKindView::PassComplete(job_of(self@).pass_index), self@.state),
            r.1 == close_for(job_of(self@).pass_index, job_of(self@).total_passes),
    {
        let j = self.running.unwrap();
        let e = self.emit(j.job_id, DeviceEventKind::PassComplete(j.pass_index), j.total_passes);
        let close = if j.pass_index + 1 < j.total_passes {
            PassClose::Park
        } else {
            PassClose::EndSession
        };
        (e, close)
    }

    /// The finished pass was closed. Another pass follows: the job parks in
    /// `WaitingForColorSwap` at that pass. It was the last: `JobComplete` goes out, the job is
    /// remembered as completed, and the device rests on `Idle`.
    pub fn pass_closed(&mut self) -> (events: Vec<DeviceEvent>)
        requires
            in_job(old(self)@),
        ensures
            final(self)@ == after_close(old(self)@),
            views(events@) == close_events(old(self)@),
            at_rest(final(self)@),
    {
        let j = self.running.unwrap();
        let mut events = Vec::new();
        if j.pass_index + 1 < j.total_passes {
            let next = j.pass_index + 1;
            self.state = DeviceState::WaitingForColorSwap { job_id: j.job_id, next_pass_index: next };
            events.push(self.emit(j.job_id, DeviceEventKind::StateChanged, j.total_passes));
            self.running = None;
            self.parked = Some(ActiveJob { pass_index: next, ..j });
            assert(views(events@) =~= close_events(old(self)@));
        } else {
            events.push(self.emit(j.job_id, DeviceEventKind::JobComplete, j.total_passes));
            // Set after `JobComplete` goes out: that event still carries the mid-flight status.
            self.ended = Some(Ended::Completed);
            self.state = DeviceState::Idle;
            events.push(self.emit(j.job_id, DeviceEventKind::StateChanged, 0));
            self.running = None;
            assert(views(events@) =~= close_events(old(self)@));
        }
        events
    }

    /// The running job failed with `e`: `Failed` goes out in the state it died in, then the
    /// device rests on `Error`.
    pub fn fail(&mut self, e: DeviceError) -> (events: Vec<DeviceEvent>)
        requires
            in_job(old(self)@),
        ensures
            final(self)@ == failed(old(self)@, e@),
            views(events@) == fail_events(old(self)@, e@),
            at_rest(final(self)@),
    {
        let j = self.running.unwrap();
        let mut events = Vec::new();
        events.push(self.emit(j.job_id, DeviceEventKind::Failed(e.duplicate()), j.total_passes));
        self.state = DeviceState::Error(e);
        events.push(self.emit(j.job_id, DeviceEventKind::StateChanged, 0));
        self.running = None;
        assert(views(events@) =~= fail_events(old(self)@, e@));
        events
    }

    /// A cancel was observed for the running job: `CancelRequested`, then `Stopping`. The caller
    /// then sends the driver's abort, if it has one, and polls whether the machine stopped.
    pub fn cancel_begun(&mut self) -> (events: Vec<DeviceEvent>)
        requires
            in_job(old(self)@),
        ensures
            final(self)@ == with_state(old(self)@, DeviceStateView::Stopping { job_id: job_of(old(self)@).job_id }),
            views(events@) == cancel_events(old(self)@),
            in_job(final(self)@),
    {
        let j = self.running.unwrap();
        let mut events = Vec::new();
        self.state = DeviceState::CancelRequested { job_id: j.job_id };
        events.push(self.emit(j.job_id, DeviceEventKind::StateChanged, j.total_passes));
        self.state = DeviceState::Stopping { job_id: j.job_id };
        events.push(self.emit(j.job_id, DeviceEventKind::StateChanged, j.total_passes));
        assert(views(events@) =~= cancel_events(old(self)@));
        events
    }

    /// The cancel is over: the job rests on `Cancelled`, with the bytes it had submitted and
    /// whether a poll saw the machine stop.
    pub fn cancel_finished(&mut self, submitted_bytes: usize, completion_known: bool) -> (e: DeviceEvent)
        requires
            in_job(old(self)@),
            old(self)@.state is Stopping,
        ensures
            final(self)@ == cancelled(old(self)@, submitted_bytes, completion_known),
            e@ == job_event(old(self)@, DeviceEventKindView::StateChanged, final(self)@.state),
            at_rest(final(self)@),
    {
        let j = self.running.unwrap();
        self.state = DeviceState::Cancelled {
            job_id: j.job_id,
            pass_index: j.pass_index,
            submitted_bytes,
            completion_known,
        };
        let e = self.emit(j.job_id, DeviceEventKind::StateChanged, j.total_passes);
        self.running = None;
        e
    }

    /// A resume was asked for. Accepted while a job waits for a colour swap: the job runs
    /// again from its next pass. Otherwise `Busy`, and nothing changes.
    pub fn resume_requested(&mut self) -> (r: Result<ActiveJob, DeviceError>)
        requires
            at_rest(old(self)@),
        ensures
            resume_accepted(old(self)@) ==> (r matches Ok(j) && Some(j) == old(self)@.parked
                && final(self)@ == unparked(old(self)@) && in_job(final(self)@)),
            !resume_accepted(old(self)@) ==> (r matches Err(e) && e@ == DeviceErrorView::Busy
                && final(self)@ == old(self)@),
    {
        match self.state {
            DeviceState::WaitingForColorSwap { .. } => match self.parked {
                Some(j) => {
                    self.parked = None;
                    self.running = Some(j);
                    Ok(j)
                },
                None => Err(DeviceError::Busy),
            },
            _ => Err(DeviceError::Busy),
        }
    }

    /// A confirm was asked for. Accepted while a job waits on its operator: the awaited pass is
    /// to be finished (`pass_ready`, then `pass_closed`). Otherwise `Busy`, and nothing
    /// changes.
    pub fn confirm_requested(&mut self) -> (r: Result<ActiveJob, DeviceError>)
        requires
            at_rest(old(self)@),
        ensures
            confirm_accepted(old(self)@) ==> (r matches Ok(j) && Some(j) == old(self)@.parked
                && final(self)@ == unparked(old(self)@) && in_job(final(self)@)),
            !confirm_accepted(old(self)@) ==> (r matches Err(e) && e@ == DeviceErrorView::Busy
                && final(self)@ == old(self)@),
    {
        match self.state {
            DeviceState::AwaitingCompletion { .. } => match self.parked {
                Some(j) => {
                    self.parked = None;
                    self.running = Some(j);
                    Ok(j)
                },
                None => Err(DeviceError::Busy),
            },
            _ => Err(DeviceError::Busy),
        }
    }

    /// A cancel arrived between commands. With a job parked, that job is to be cancelled: it
    /// runs again, and the answer says whether its pass had been sent in full (it awaited
    /// completion) or not started (it awaited a colour swap). With nothing parked it is a no-op.
    pub fn cancel_requested(&mut self) -> (r: Option<(ActiveJob, bool)>)
        requires
            at_rest(old(self)@),
        ensures
            old(self)@.parked is Some ==> (r == Some((old(self)@.parked->0, old(self)@.state is AwaitingCompletion))
                && final(self)@ == unparked(old(self)@) && in_job(final(self)@)),
            old(self)@.parked is None ==> (r is None && final(self)@ == old(self)@),
    {
        match self.parked {
            Some(j) => {
                let awaiting = match self.state {
                    DeviceState::AwaitingCompletion { .. } => true,
                    _ => false,
                };
                self.parked = None;
                self.running = Some(j);
                Some((j, awaiting))
            },
            None => None,
        }
    }
}

/// At rest, the status a device reports offers exactly the calls the worker would accept: a
/// cut when a cut would not be refused as busy, a resume when a resume would be, a confirm when
/// a confirm would be, and a cancel when a cancel would act on a job.
pub proof fn lemma_actions_are_the_legal_calls(w: WorkerView, total: usize, ended: Option<Ended>)
    requires
        at_rest(w),
    ensures
        status_spec(w.state, total, ended).actions.cut == cut_accepted(w.state),
        status_spec(w.state, total, ended).actions.resume == resume_accepted(w),
        status_spec(w.state, total, ended).actions.confirm == confirm_accepted(w),
        status_spec(w.state, total, ended).actions.cancel == cancel_acts(w),
{
}

/// The id of the job a device state names, if it names one.
pub open spec fn state_job(s: DeviceStateView) -> Option<u64> {
    match s {
        DeviceStateView::Transmitting { job_id, .. } => Some(job_id),
        DeviceStateView::AwaitingCompletion { job_id, .. } => Some(job_id),
        DeviceStateView::WaitingForColorSwap { job_id, .. } => Some(job_id),
        DeviceStateView::CancelRequested { job_id } => Some(job_id),
        DeviceStateView::Stopping { job_id } => Some(job_id),
        DeviceStateView::Cancelled { job_id, .. } => Some(job_id),
        _ => None,
    }
}

/// Every job `w` holds, running, parked or named by its state, is job `j`, an id already
/// handed out and never `NO_JOB`.
pub open spec fn holds_only(w: WorkerView, j: u64) -> bool {
    &&& 1 <= j < w.next_job_id
    &&& (w.running matches Some(r) ==> r.job_id == j)
    &&& (w.parked matches Some(p) ==> p.job_id == j)
    &&& (state_job(w.state) matches Some(id) ==> id == j)
}

/// Every one of `events` belongs to job `j` or to no job.
pub open spec fn of_job_or_none(events: Seq<DeviceEventView>, j: u64) -> bool {
    forall|i: int| 0 <= i < events.len() ==> #[trigger] events[i].job_id == j || events[i].job_id == NO_JOB
}

/// A cut takes a fresh id: never `NO_JOB`, larger than that of any job the worker held before,
/// and from then on the new job is the only one the worker holds. What starting it reports
/// belongs to no job.
pub proof fn lemma_a_cut_takes_a_fresh_id(w: WorkerView, total: usize, earlier: u64)
    requires
        w.next_job_id >= 1,
        w.next_job_id < u64::MAX,
    ensures
        job_of(cut_started(w, total)).job_id == w.next_job_id,
        job_of(cut_started(w, total)).job_id != NO_JOB,
        holds_only(w, earlier) ==> earlier < job_of(cut_started(w, total)).job_id,
        holds_only(cut_started(w, total), job_of(cut_started(w, total)).job_id),
        of_job_or_none(cut_events(w.state), job_of(cut_started(w, total)).job_id),
{
}

/// While a job runs, every step keeps it the only job the worker holds and leaves the next id
/// alone, and everything a step reports belongs to that job or to no job. So no event of an
/// earlier job follows the first event of a later one.
pub proof fn lemma_job_steps_keep_their_job(
    w: WorkerView,
    j: u64,
    total_bytes: usize,
    len: usize,
    e: DeviceErrorView,
    submitted: usize,
    known: bool,
)
    requires
        in_job(w),
        holds_only(w, j),
    ensures
        holds_only(with_state(w, sending(job_of(w), 0, total_bytes)), j),
        w.state is Transmitting ==> holds_only(with_state(w, advanced(w.state, len)), j),
        holds_only(awaiting(w), j),
        holds_only(after_close(w), j),
        holds_only(failed(w, e), j),
        holds_only(with_state(w, DeviceStateView::Stopping { job_id: job_of(w).job_id }), j),
        holds_only(cancelled(w, submitted, known), j),
        after_close(w).next_job_id == w.next_job_id,
        failed(w, e).next_job_id == w.next_job_id,
        cancelled(w, submitted, known).next_job_id == w.next_job_id,
        job_of(w).job_id == j,
        of_job_or_none(close_events(w), j),
        of_job_or_none(fail_events(w, e), j),
        of_job_or_none(cancel_events(w), j),
{
}

/// Between commands, every step but a cut keeps the worker to the job it holds and leaves the
/// next id alone; a lifecycle transition reports no job.
pub proof fn lemma_rest_steps_keep_their_job(w: WorkerView, j: u64, s: DeviceStateView)
    requires
        at_rest(w),
        holds_only(w, j),
        state_job(s) is None,
    ensures
        holds_only(unparked(w), j),
        holds_only(lifecycle(w, s), j),
        holds_only(disconnected(w), j),
        unparked(w).next_job_id == w.next_job_id,
        lifecycle(w, s).next_job_id == w.next_job_id,
        disconnected(w).next_job_id == w.next_job_id,
        lifecycle_event(s).job_id == NO_JOB,
{
}

/// A job runs its passes in order. A cut starts at pass 0 of its passes. Closing a pass that is
/// not the last parks the job for a colour swap at the next pass; closing the last reports the
/// job complete, remembers it completed and rests on `Idle`. A pass the machine cannot report
/// parks the job awaiting its operator at that pass; a resume or confirm runs the parked job
/// again where it stood; a failure rests on the fault and a cancel on `Cancelled` at the pass
/// it stopped in, neither keeping a job running.
pub proof fn lemma_a_job_runs_its_passes_in_order(
    w: WorkerView,
    total: usize,
    e: DeviceErrorView,
    submitted: usize,
    known: bool,
)
    ensures
        w.next_job_id < u64::MAX ==> job_of(cut_started(w, total)) == (ActiveJob {
            job_id: w.next_job_id,
            total_passes: total,
            pass_index: 0,
        }) && cut_started(w, total).state == DeviceStateView::Idle,
        in_job(w) && job_of(w).pass_index + 1 < job_of(w).total_passes ==> {
            &&& after_close(w).state == DeviceStateView::WaitingForColorSwap {
                job_id: job_of(w).job_id,
                next_pass_index: (job_of(w).pass_index + 1) as usize,
            }
            &&& after_close(w).parked == Some(
                ActiveJob { pass_index: (job_of(w).pass_index + 1) as usize, ..job_of(w) },
            )
            &&& after_close(w).running is None
            &&& close_events(w).len() == 1
        },
        in_job(w) && job_of(w).pass_index + 1 >= job_of(w).total_passes ==> {
            &&& after_close(w).state == DeviceStateView::Idle
            &&& after_close(w).ended == Some(Ended::Completed)
            &&& after_close(w).running is None
            &&& after_close(w).parked is None
            &&& close_events(w).len() == 2
            &&& close_events(w)[0].kind == DeviceEventKindView::JobComplete
            &&& close_events(w)[0].job_id == job_of(w).job_id
        },
        in_job(w) ==> awaiting(w).state == (DeviceStateView::AwaitingCompletion {
            job_id: job_of(w).job_id,
            pass_index: job_of(w).pass_index,
        }) && awaiting(w).parked == w.running && awaiting(w).running is None,
        in_job(w) ==> failed(w, e).state == DeviceStateView::Error(e) && failed(w, e).running is None,
        in_job(w) ==> cancelled(w, submitted, known).state == (DeviceStateView::Cancelled {
            job_id: job_of(w).job_id,
            pass_index: job_of(w).pass_index,
            submitted_bytes: submitted,
            completion_known: known,
        }) && cancelled(w, submitted, known).running is None,
        unparked(w).running == w.parked && unparked(w).parked is None && unparked(w).state == w.state,
{
}

} // verus!
