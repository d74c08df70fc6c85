//! What a caller is told about a cut: where it has got to, how the last one ended, and what
//! may be done next. The device's full state is reported only through `status_of`, so there is
//! one derivation of phase and legal actions.
use vstd::prelude::*;
use crate::transport::{TransportError, TransportErrorView};

verus! {

/// Why a device operation failed.
#[derive(Clone, Debug)]
pub enum DeviceError {
    Disconnected,
    Busy,
    Timeout,
    WriteZero,
    Io(String),
}

/// A `DeviceError` with its message as characters.
pub enum DeviceErrorView {
    Disconnected,
    Busy,
    Timeout,
    WriteZero,
    Io(Seq<char>),
}

impl View for DeviceError {
    type V = DeviceErrorView;

    open spec fn view(&self) -> DeviceErrorView {
        match self {
            DeviceError::Disconnected => DeviceErrorView::Disconnected,
            DeviceError::Busy => DeviceErrorView::Busy,
            DeviceError::Timeout => DeviceErrorView::Timeout,
            DeviceError::WriteZero => DeviceErrorView::WriteZero,
            DeviceError::Io(m) => DeviceErrorView::Io(m@),
        }
    }
}

impl DeviceError {
    /// A copy that says the same thing.
    pub fn duplicate(&self) -> (r: DeviceError)
        ensures
            r@ == self@,
    {
        match self {
            DeviceError::Disconnected => DeviceError::Disconnected,
            DeviceError::Busy => DeviceError::Busy,
            DeviceError::Timeout => DeviceError::Timeout,
            DeviceError::WriteZero => DeviceError::WriteZero,
            DeviceError::Io(m) => DeviceError::Io(m.clone()),
        }
    }
}

impl PartialEq for DeviceError {
    fn eq(&self, other: &Self) -> (r: bool) {
        match self {
            DeviceError::Disconnected => match other {
                DeviceError::Disconnected => true,
                _ => false,
            },
            DeviceError::Busy => match other {
                DeviceError::Busy => true,
                _ => false,
            },
            DeviceError::Timeout => match other {
                DeviceError::Timeout => true,
                _ => false,
            },
            DeviceError::WriteZero => match other {
                DeviceError::WriteZero => true,
                _ => false,
            },
            DeviceError::Io(a) => match other {
                DeviceError::Io(b) => *a == *b,
                _ => false,
            },
        }
    }
}

impl vstd::std_specs::cmp::PartialEqSpecImpl for DeviceError {
    open spec fn obeys_eq_spec() -> bool {
        true
    }

    open spec fn eq_spec(&self, other: &Self) -> bool {
        self@ == other@
    }
}

/// A transport failure as the device reports it: an absent or vanished device is a
/// disconnect, and the rest carry over.
pub open spec fn device_error_of(e: TransportErrorView) -> DeviceErrorView {
    match e {
        TransportErrorView::NotFound => DeviceErrorView::Disconnected,
        TransportErrorView::Disconnected => DeviceErrorView::Disconnected,
        TransportErrorView::Timeout => DeviceErrorView::Timeout,
        TransportErrorView::WriteZero => DeviceErrorView::WriteZero,
        TransportErrorView::Io(m) => DeviceErrorView::Io(m),
    }
}

/// A transport failure as the device reports it, leaving the failure itself in place.
pub fn device_error_from(e: &TransportError) -> (r: DeviceError)
    ensures
        r@ == device_error_of(e@),
{
    match e {
        TransportError::NotFound => DeviceError::Disconnected,
        TransportError::Disconnected => DeviceError::Disconnected,
        TransportError::Timeout => DeviceError::Timeout,
        TransportError::WriteZero => DeviceError::WriteZero,
        TransportError::Io(s) => DeviceError::Io(s.clone()),
    }
}

impl From<TransportError> for DeviceError {
    fn from(e: TransportError) -> (r: DeviceError) {
        match e {
            TransportError::NotFound => DeviceError::Disconnected,
            TransportError::Disconnected => DeviceError::Disconnected,
            TransportError::Timeout => DeviceError::Timeout,
            TransportError::WriteZero => DeviceError::WriteZero,
            TransportError::Io(s) => DeviceError::Io(s),
        }
    }
}

impl vstd::std_specs::convert::FromSpecImpl<TransportError> for DeviceError {
    open spec fn obeys_from_spec() -> bool {
        true
    }

    open spec fn from_spec(e: TransportError) -> DeviceError {
        match e {
            TransportError::NotFound => DeviceError::Disconnected,
            TransportError::Disconnected => DeviceError::Disconnected,
            TransportError::Timeout => DeviceError::Timeout,
            TransportError::WriteZero => DeviceError::WriteZero,
            TransportError::Io(s) => DeviceError::Io(s),
        }
    }
}

/// The machine, in full detail. Callers read `CutStatus` instead.
#[derive(Clone, Debug)]
pub enum DeviceState {
    Disconnected,
    Connecting,
    Idle,
    Transmitting { job_id: u64, pass_index: usize, submitted_bytes: usize, total_bytes: usize },
    AwaitingCompletion { job_id: u64, pass_index: usize },
    WaitingForColorSwap { job_id: u64, next_pass_index: usize },
    CancelRequested { job_id: u64 },
    Stopping { job_id: u64 },
    Cancelled { job_id: u64, pass_index: usize, submitted_bytes: usize, completion_known: bool },
    Disconnecting,
    Error(DeviceError),
}

/// A `DeviceState` with its error as characters.
pub enum DeviceStateView {
    Disconnected,
    Connecting,
    Idle,
    Transmitting { job_id: u64, pass_index: usize, submitted_bytes: usize, total_bytes: usize },
    AwaitingCompletion { job_id: u64, pass_index: usize },
    WaitingForColorSwap { job_id: u64, next_pass_index: usize },
    CancelRequested { job_id: u64 },
    Stopping { job_id: u64 },
    Cancelled { job_id: u64, pass_index: usize, submitted_bytes: usize, completion_known: bool },
    Disconnecting,
    Error(DeviceErrorView),
}

impl View for DeviceState {
    type V = DeviceStateView;

    open spec fn view(&self) -> DeviceStateView {
        match self {
            DeviceState::Disconnected => DeviceStateView::Disconnected,
            DeviceState::Connecting => DeviceStateView::Connecting,
            DeviceState::Idle => DeviceStateView::Idle,
            DeviceState::Transmitting { job_id, pass_index, submitted_bytes, total_bytes } =>
                DeviceStateView::Transmitting {
                job_id: *job_id,
                pass_index: *pass_index,
                submitted_bytes: *submitted_bytes,
                total_bytes: *total_bytes,
            },
            DeviceState::AwaitingCompletion { job_id, pass_index } =>
                DeviceStateView::AwaitingCompletion { job_id: *job_id, pass_index: *pass_index },
            DeviceState::WaitingForColorSwap { job_id, next_pass_index } =>
                DeviceStateView::WaitingForColorSwap {
                job_id: *job_id,
                next_pass_index: *next_pass_index,
            },
            DeviceState::CancelRequested { job_id } => DeviceStateView::CancelRequested {
                job_id: *job_id,
            },
            DeviceState::Stopping { job_id } => DeviceStateView::Stopping { job_id: *job_id },
            DeviceState::Cancelled { job_id, pass_index, submitted_bytes, completion_known } =>
                DeviceStateView::Cancelled {
                job_id: *job_id,
                pass_index: *pass_index,
                submitted_bytes: *submitted_bytes,
                completion_known: *completion_known,
            },
            DeviceState::Disconnecting => DeviceStateView::Disconnecting,
            DeviceState::Error(e) => DeviceStateView::Error(e@),
        }
    }
}

impl DeviceState {
    /// A copy that holds the same state.
    pub fn duplicate(&self) -> (r: DeviceState)
        ensures
            r@ == self@,
    {
        match self {
            DeviceState::Disconnected => DeviceState::Disconnected,
            DeviceState::Connecting => DeviceState::Connecting,
            DeviceState::Idle => DeviceState::Idle,
            DeviceState::Transmitting { job_id, pass_index, submitted_bytes, total_bytes } =>
                DeviceState::Transmitting {
                job_id: *job_id,
                pass_index: *pass_index,
                submitted_bytes: *submitted_bytes,
                total_bytes: *total_bytes,
            },
            DeviceState::AwaitingCompletion { job_id, pass_index } =>
                DeviceState::AwaitingCompletion { job_id: *job_id, pass_index: *pass_index },
            DeviceState::WaitingForColorSwap { job_id, next_pass_index } =>
                DeviceState::WaitingForColorSwap {
                job_id: *job_id,
                next_pass_index: *next_pass_index,
            },
            DeviceState::CancelRequested { job_id } => DeviceState::CancelRequested {
                job_id: *job_id,
            },
            DeviceState::Stopping { job_id } => DeviceState::Stopping { job_id: *job_id },
            DeviceState::Cancelled { job_id, pass_index, submitted_bytes, completion_known } =>
                DeviceState::Cancelled {
                job_id: *job_id,
                pass_index: *pass_index,
                submitted_bytes: *submitted_bytes,
                completion_known: *completion_known,
            },
            DeviceState::Disconnecting => DeviceState::Disconnecting,
            DeviceState::Error(e) => DeviceState::Error(e.duplicate()),
        }
    }
}

/// What is happening now, and nothing about what happened before: every ending rests on
/// `Idle`, and which ending it was is `CutStatus::ended`.
#[derive(Clone, Copy, Debug, PartialEq, Eq, Structural)]
pub enum Phase {
    Disconnected,
    Connecting,
    Disconnecting,
    Idle,
    Sending,
    /// The machine cannot be polled, so a human confirms the pass finished.
    AwaitingConfirmation,
    AwaitingColorSwap,
    Cancelling,
    Failed,
}

/// How the last job finished.
#[derive(Clone, Copy, Debug, PartialEq, Eq, Structural)]
pub enum Ended {
    Completed,
    Cancelled,
}

/// Which calls are legal right now.
#[derive(Clone, Copy, Debug, PartialEq, Eq, Structural)]
pub struct Actions {
    pub cut: bool,
    pub cancel: bool,
    pub resume: bool,
    pub confirm: bool,
}

impl Default for Actions {
    /// Nothing is legal.
    fn default() -> (a: Actions)
        ensures
            a == no_actions(),
    {
        Actions { cut: false, cancel: false, resume: false, confirm: false }
    }
}

/// No call is legal.
pub open spec fn no_actions() -> Actions {
    Actions { cut: false, cancel: false, resume: false, confirm: false }
}

/// Which pass of how many.
#[derive(Clone, Copy, Debug, PartialEq, Eq, Structural)]
pub struct PassPosition {
    pub index: usize,
    pub total: usize,
}

/// How many bytes of a pass have gone out.
#[derive(Clone, Copy, Debug, PartialEq, Eq, Structural)]
pub struct ByteProgress {
    pub sent: usize,
    pub total: usize,
}

/// Everything a caller is told about the device.
#[derive(Clone, Debug)]
pub struct CutStatus {
    pub phase: Phase,
    pub ended: Option<Ended>,
    pub actions: Actions,
    pub pass: Option<PassPosition>,
    pub sent: Option<ByteProgress>,
    pub error: Option<DeviceError>,
}

/// A `CutStatus` with its error as characters.
pub struct CutStatusView {
    pub phase: Phase,
    pub ended: Option<Ended>,
    pub actions: Actions,
    pub pass: Option<PassPosition>,
    pub sent: Option<ByteProgress>,
    pub error: Option<DeviceErrorView>,
}

impl View for CutStatus {
    type V = CutStatusView;

    open spec fn view(&self) -> CutStatusView {
        CutStatusView {
            phase: self.phase,
            ended: self.ended,
            actions: self.actions,
            pass: self.pass,
            sent: self.sent,
            error: match self.error {
                Some(e) => Some(e@),
                None => None,
            },
        }
    }
}

impl PartialEq for CutStatus {
    fn eq(&self, other: &Self) -> (r: bool) {
        let same_error = match (&self.error, &other.error) {
            (Some(a), Some(b)) => a.eq(b),
            (None, None) => true,
            _ => false,
        };
        self.phase == other.phase && self.ended == other.ended && self.actions == other.actions
            && self.pass == other.pass && self.sent == other.sent && same_error
    }
}

impl vstd::std_specs::cmp::PartialEqSpecImpl for CutStatus {
    open spec fn obeys_eq_spec() -> bool {
        true
    }

    open spec fn eq_spec(&self, other: &Self) -> bool {
        self@ == other@
    }
}

/// The phase a state reports.
pub open spec fn phase_of(s: DeviceStateView) -> Phase {
    match s {
        DeviceStateView::Disconnected => Phase::Disconnected,
        DeviceStateView::Connecting => Phase::Connecting,
        DeviceStateView::Disconnecting => Phase::Disconnecting,
        DeviceStateView::Idle => Phase::Idle,
        DeviceStateView::Transmitting { .. } => Phase::Sending,
        DeviceStateView::AwaitingCompletion { .. } => Phase::AwaitingConfirmation,
        DeviceStateView::WaitingForColorSwap { .. } => Phase::AwaitingColorSwap,
        DeviceStateView::CancelRequested { .. } => Phase::Cancelling,
        DeviceStateView::Stopping { .. } => Phase::Cancelling,
        // A cancelled job is over, so nothing is happening.
        DeviceStateView::Cancelled { .. } => Phase::Idle,
        DeviceStateView::Error(_) => Phase::Failed,
    }
}

/// The calls a state permits: a cut at rest (and after a cancel whose stop a poll observed),
/// a cancel while a job is in flight, a resume while parked for a colour swap, a confirm while
/// waiting on the operator.
pub open spec fn actions_of(s: DeviceStateView) -> Actions {
    match s {
        DeviceStateView::Idle => Actions { cut: true, ..no_actions() },
        DeviceStateView::Transmitting { .. } => Actions { cancel: true, ..no_actions() },
        DeviceStateView::AwaitingCompletion { .. } => Actions {
            cancel: true,
            confirm: true,
            ..no_actions()
        },
        DeviceStateView::WaitingForColorSwap { .. } => Actions {
            cancel: true,
            resume: true,
            ..no_actions()
        },
        DeviceStateView::Cancelled { completion_known, .. } => Actions {
            cut: completion_known,
            ..no_actions()
        },
        _ => no_actions(),
    }
}

/// How the last job ended, as reported in a state: a cancelled job says so itself, a fault is
/// no ending, and otherwise the remembered outcome stands.
pub open spec fn ended_of(s: DeviceStateView, ended: Option<Ended>) -> Option<Ended> {
    match s {
        DeviceStateView::Cancelled { .. } => Some(Ended::Cancelled),
        DeviceStateView::Error(_) => None,
        _ => ended,
    }
}

/// The pass a state is at, counted against `total`.
pub open spec fn pass_of(s: DeviceStateView, total: usize) -> Option<PassPosition> {
    match s {
        DeviceStateView::Transmitting { pass_index, .. } => Some(
            PassPosition { index: pass_index, total },
        ),
        DeviceStateView::AwaitingCompletion { pass_index, .. } => Some(
            PassPosition { index: pass_index, total },
        ),
        DeviceStateView::WaitingForColorSwap { next_pass_index, .. } => Some(
            PassPosition { index: next_pass_index, total },
        ),
        DeviceStateView::Cancelled { pass_index, .. } => Some(
            PassPosition { index: pass_index, total },
        ),
        _ => None,
    }
}

/// The bytes a state has sent: progress while sending, and a cancelled pass's submitted bytes
/// as both sent and total.
pub open spec fn sent_of(s: DeviceStateView) -> Option<ByteProgress> {
    match s {
        DeviceStateView::Transmitting { submitted_bytes, total_bytes, .. } => Some(
            ByteProgress { sent: submitted_bytes, total: total_bytes },
        ),
        DeviceStateView::Cancelled { submitted_bytes, .. } => Some(
            ByteProgress { sent: submitted_bytes, total: submitted_bytes },
        ),
        _ => None,
    }
}

/// The fault a state carries.
pub open spec fn error_of(s: DeviceStateView) -> Option<DeviceErrorView> {
    match s {
        DeviceStateView::Error(e) => Some(e),
        _ => None,
    }
}

/// The whole report for a state.
pub open spec fn status_spec(
    s: DeviceStateView,
    total_passes: usize,
    ended: Option<Ended>,
) -> CutStatusView {
    CutStatusView {
        phase: phase_of(s),
        ended: ended_of(s, ended),
        actions: actions_of(s),
        pass: pass_of(s, total_passes),
        sent: sent_of(s),
        error: error_of(s),
    }
}

/// Whether a phase is mid-flight.
pub open spec fn phase_is_active(p: Phase) -> bool {
    p == Phase::Sending || p == Phase::AwaitingConfirmation || p == Phase::AwaitingColorSwap || p
        == Phase::Cancelling
}

impl CutStatus {
    /// The report when there is no device manager to ask.
    pub fn disconnected() -> (s: CutStatus)
        ensures
            s@ == status_spec(DeviceStateView::Disconnected, 0, None),
    {
        status_of(&DeviceState::Disconnected, 0, None)
    }

    /// True while a cut is mid-flight.
    pub fn is_active(&self) -> (r: bool)
        ensures
            r == phase_is_active(self.phase),
    {
        match self.phase {
            Phase::Sending | Phase::AwaitingConfirmation | Phase::AwaitingColorSwap
            | Phase::Cancelling => true,
            _ => false,
        }
    }
}

/// The report for `state`, with `ended` the outcome remembered for a job that ran to the end.
pub fn status_of(state: &DeviceState, total_passes: usize, ended: Option<Ended>) -> (s: CutStatus)
    ensures
        s@ == status_spec(state@, total_passes, ended),
{
    let ended = match state {
        DeviceState::Cancelled { .. } => Some(Ended::Cancelled),
        DeviceState::Error(_) => None,
        _ => ended,
    };
    let none = Actions::default();
    match state {
        DeviceState::Disconnected => CutStatus {
            phase: Phase::Disconnected,
            ended,
            actions: none,
            pass: None,
            sent: None,
            error: None,
        },
        DeviceState::Connecting => CutStatus {
            phase: Phase::Connecting,
            ended,
            actions: none,
            pass: None,
            sent: None,
            error: None,
        },
        DeviceState::Disconnecting => CutStatus {
            phase: Phase::Disconnecting,
            ended,
            actions: none,
            pass: None,
            sent: None,
            error: None,
        },
        DeviceState::Idle => CutStatus {
            phase: Phase::Idle,
            ended,
            actions: Actions { cut: true, ..none },
            pass: None,
            sent: None,
            error: None,
        },
        DeviceState::Transmitting { pass_index, submitted_bytes, total_bytes, .. } => CutStatus {
            phase: Phase::Sending,
            ended,
            actions: Actions { cancel: true, ..none },
            pass: Some(PassPosition { index: *pass_index, total: total_passes }),
            sent: Some(ByteProgress { sent: *submitted_bytes, total: *total_bytes }),
            error: None,
        },
        DeviceState::AwaitingCompletion { pass_index, .. } => CutStatus {
            phase: Phase::AwaitingConfirmation,
            ended,
            actions: Actions { cancel: true, confirm: true, ..none },
            pass: Some(PassPosition { index: *pass_index, total: total_passes }),
            sent: None,
            error: None,
        },
        DeviceState::WaitingForColorSwap { next_pass_index, .. } => CutStatus {
            phase: Phase::AwaitingColorSwap,
            ended,
            actions: Actions { cancel: true, resume: true, ..none },
            pass: Some(PassPosition { index: *next_pass_index, total: total_passes }),
            sent: None,
            error: None,
        },
        DeviceState::CancelRequested { .. } | DeviceState::Stopping { .. } => CutStatus {
            phase: Phase::Cancelling,
            ended,
            actions: none,
            pass: None,
            sent: None,
            error: None,
        },
        // Over is not stopped: another cut is offered only once a poll observed the machine
        // at rest.
        DeviceState::Cancelled { pass_index, submitted_bytes, completion_known, .. } => CutStatus {
            phase: Phase::Idle,
            ended,
            actions: Actions { cut: *completion_known, ..none },
            pass: Some(PassPosition { index: *pass_index, total: total_passes }),
            sent: Some(ByteProgress { sent: *submitted_bytes, total: *submitted_bytes }),
            error: None,
        },
        DeviceState::Error(e) => CutStatus {
            phase: Phase::Failed,
            ended,
            actions: none,
            pass: None,
            sent: None,
            error: Some(e.duplicate()),
        },
    }
}

/// A fault is not an ending: a failed device reports `Failed`, carries its reason, and never
/// reads as a cut that finished, whatever outcome was remembered.
pub proof fn lemma_a_fault_is_not_an_ending(e: DeviceErrorView, total: usize, ended: Option<Ended>)
    ensures
        status_spec(DeviceStateView::Error(e), total, ended).phase == Phase::Failed,
        status_spec(DeviceStateView::Error(e), total, ended).ended is None,
        status_spec(DeviceStateView::Error(e), total, ended).error == Some(e),
        status_spec(DeviceStateView::Error(e), total, ended).actions == no_actions(),
{
}

/// A cancelled job rests on `Idle`, says it was cancelled, and reports its submitted bytes as
/// the whole of what was sent; another cut is offered exactly when the stop was observed.
pub proof fn lemma_a_cancelled_job_rests_idle(
    job_id: u64,
    pass_index: usize,
    submitted_bytes: usize,
    completion_known: bool,
    total: usize,
    ended: Option<Ended>,
)
    ensures
        ({
            let s = status_spec(
                DeviceStateView::Cancelled { job_id, pass_index, submitted_bytes, completion_known },
                total,
                ended,
            );
            &&& s.phase == Phase::Idle
            &&& s.ended == Some(Ended::Cancelled)
            &&& s.actions == Actions { cut: completion_known, ..no_actions() }
            &&& s.sent == Some(ByteProgress { sent: submitted_bytes, total: submitted_bytes })
            &&& s.pass == Some(PassPosition { index: pass_index, total })
        }),
{
}

/// A report is mid-flight exactly when a job is being sent, awaits its operator or a colour
/// swap, or is being cancelled.
pub proof fn lemma_active_is_mid_flight(s: DeviceStateView, total: usize, ended: Option<Ended>)
    ensures
        phase_is_active(status_spec(s, total, ended).phase) <==> (s is Transmitting
            || s is AwaitingCompletion || s is WaitingForColorSwap || s is CancelRequested
            || s is Stopping),
{
}

/// A report says which pass of how many a job is at whenever the state holds a job at a pass:
/// the pass being sent, the pass awaiting its operator, the next pass awaiting a colour swap,
/// or the pass a cancelled job stopped in, each counted against `total`. A state with no job at
/// a pass reports none.
pub proof fn lemma_a_report_places_the_pass_in_hand(s: DeviceStateView, total: usize, ended: Option<Ended>)
    ensures
        s matches DeviceStateView::Transmitting { pass_index, .. } ==> status_spec(s, total, ended).pass
            == Some(PassPosition { index: pass_index, total }),
        s matches DeviceStateView::AwaitingCompletion { pass_index, .. } ==> status_spec(s, total, ended).pass
            == Some(PassPosition { index: pass_index, total }),
        s matches DeviceStateView::WaitingForColorSwap { next_pass_index, .. } ==> status_spec(
            s,
            total,
            ended,
        ).pass == Some(PassPosition { index: next_pass_index, total }),
        s matches DeviceStateView::Cancelled { pass_index, .. } ==> status_spec(s, total, ended).pass
            == Some(PassPosition { index: pass_index, total }),
        !(s is Transmitting || s is AwaitingCompletion || s is WaitingForColorSwap || s is Cancelled)
            ==> status_spec(s, total, ended).pass is None,
{
}

/// A report's byte count is the pass's progress while it is sent, and a cancelled pass's
/// submitted bytes as all it sent; otherwise there is none. Only a fault carries an error, and
/// it is the fault's own.
pub proof fn lemma_a_report_counts_the_bytes_sent(s: DeviceStateView, total: usize, ended: Option<Ended>)
    ensures
        s matches DeviceStateView::Transmitting { submitted_bytes, total_bytes, .. } ==> status_spec(
            s,
            total,
            ended,
        ).sent == Some(ByteProgress { sent: submitted_bytes, total: total_bytes }),
        !(s is Transmitting || s is Cancelled) ==> status_spec(s, total, ended).sent is None,
        s matches DeviceStateView::Error(e) ==> status_spec(s, total, ended).error == Some(e),
        !(s is Error) ==> status_spec(s, total, ended).error is None,
{
}

/// What a report offers: a cut only at rest or after a cancel whose stop was seen; a cancel
/// exactly while a job is sent, awaits its operator or awaits a colour swap; a resume only
/// awaiting a colour swap; a confirm only awaiting the operator. The remembered outcome of the
/// last job stands in every state but a cancelled one, which reports itself, and a fault.
pub proof fn lemma_a_report_offers_only_the_legal_calls(s: DeviceStateView, total: usize, ended: Option<Ended>)
    ensures
        status_spec(s, total, ended).actions.cut <==> (s is Idle || (s matches DeviceStateView::Cancelled {
            completion_known,
            ..
        } && completion_known)),
        status_spec(s, total, ended).actions.cancel <==> (s is Transmitting || s is AwaitingCompletion
            || s is WaitingForColorSwap),
        status_spec(s, total, ended).actions.resume <==> s is WaitingForColorSwap,
        status_spec(s, total, ended).actions.confirm <==> s is AwaitingCompletion,
        !(s is Cancelled || s is Error) ==> status_spec(s, total, ended).ended == ended,
        s is Idle ==> status_spec(s, total, ended).phase == Phase::Idle,
        s is Transmitting ==> status_spec(s, total, ended).phase == Phase::Sending,
        s is AwaitingCompletion ==> status_spec(s, total, ended).phase == Phase::AwaitingConfirmation,
        s is WaitingForColorSwap ==> status_spec(s, total, ended).phase == Phase::AwaitingColorSwap,
        s is Disconnected ==> status_spec(s, total, ended).phase == Phase::Disconnected,
        s is Connecting ==> status_spec(s, total, ended).phase == Phase::Connecting,
        s is Disconnecting ==> status_spec(s, total, ended).phase == Phase::Disconnecting,
        (s is CancelRequested || s is Stopping) ==> status_spec(s, total, ended).phase == Phase::Cancelling,
{
}

} // verus!
