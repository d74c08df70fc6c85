use cuthulhu::encode::{open_pass, Dialect, UnitPoint};
use cuthulhu::session::{poll_status, send_chunk, PollReply};
use cuthulhu::status::{status_of, DeviceError, DeviceState, Ended, PassPosition, Phase};
use cuthulhu::transport::{write_all, MockTransport, Settings, TransportError};
use cuthulhu::worker::{DeviceEvent, DeviceEventKind, PassClose, Worker, NO_JOB};
use std::collections::VecDeque;
use std::time::Duration;

type Pass = Vec<Vec<UnitPoint>>;

/// A worker driven step by step over a scripted wire, the way the device thread drives it:
/// each method is one command, doing the outside work between the worker's decisions and
/// keeping every event the worker reports.
struct Bench {
    w: Worker,
    t: MockTransport,
    dialect: Dialect,
    events: Vec<DeviceEvent>,
    parked: Option<Vec<Pass>>,
    /// How many completion polls a pass gets before it times out.
    polls: usize,
}

impl Bench {
    fn new(dialect: Dialect, reads: Vec<Result<Vec<u8>, TransportError>>) -> Bench {
        let t = MockTransport { reads: reads.into(), ..Default::default() };
        Bench { w: Worker::new(), t, dialect, events: Vec::new(), parked: None, polls: 3 }
    }

    fn cameo(ready_reads: usize) -> Bench {
        Bench::new(Dialect::Gpgl, (0..ready_reads).map(|_| Ok(b"0\x03".to_vec())).collect())
    }

    fn puma() -> Bench {
        Bench::new(Dialect::Hpgl, Vec::new())
    }

    fn drain(&mut self) -> Vec<DeviceEvent> {
        std::mem::take(&mut self.events)
    }

    fn connect(&mut self) -> Result<(), DeviceError> {
        let events = self.w.connect_requested()?;
        self.events.extend(events);
        self.events.extend(self.w.connect_finished(Ok(())));
        Ok(())
    }

    fn disconnect(&mut self) {
        self.events.extend(self.w.disconnect());
        self.parked = None;
    }

    fn fail(&mut self, e: DeviceError) -> DeviceError {
        self.events.extend(self.w.fail(e.clone()));
        e
    }

    fn finish_pass(&mut self) -> Result<(), DeviceError> {
        let (event, close) = self.w.pass_ready();
        self.events.push(event);
        let bytes = match close {
            PassClose::Park => self.dialect.pass_park(),
            PassClose::EndSession => self.dialect.session_end(),
        };
        if let Err(e) = write_all(&mut self.t, &bytes) {
            return Err(self.fail(DeviceError::from(e)));
        }
        self.events.extend(self.w.pass_closed());
        Ok(())
    }

    fn run_pass(&mut self, passes: &[Pass]) -> Result<(), DeviceError> {
        let index = self.w.running().expect("a job is running").pass_index;
        let bytes = open_pass(self.dialect, &passes[index], &Settings::default(), index);
        self.events.push(self.w.transmit_started(bytes.len()));
        let mut submitted = 0;
        while submitted < bytes.len() {
            match send_chunk(&mut self.t, &bytes, submitted) {
                Ok(end) => {
                    self.events.push(self.w.chunk_sent(end - submitted));
                    submitted = end;
                }
                Err(e) => return Err(self.fail(e)),
            }
        }
        if self.dialect.caps().needs_operator_pass_confirm {
            self.events.push(self.w.pass_needs_confirm());
            return Ok(());
        }
        let query = self.dialect.status_query();
        let mut ready = false;
        for _ in 0..self.polls {
            match poll_status(&mut self.t, &query, Duration::from_millis(1)) {
                Ok(PollReply::Ready) => {
                    ready = true;
                    break;
                }
                Ok(PollReply::NotReady) => {}
                Err(e) => return Err(self.fail(e)),
            }
        }
        if !ready {
            return Err(self.fail(DeviceError::Timeout));
        }
        self.finish_pass()
    }

    fn park_if_held(&mut self, passes: Vec<Pass>) {
        let held = matches!(
            self.w.state(),
            DeviceState::WaitingForColorSwap { .. } | DeviceState::AwaitingCompletion { .. }
        );
        if held {
            self.parked = Some(passes);
        }
    }

    fn cut(&mut self, passes: Vec<Pass>) -> Result<u64, DeviceError> {
        let (job_id, events) = self.w.cut_requested(passes.len())?;
        self.events.extend(events);
        let outcome = self.run_pass(&passes);
        self.park_if_held(passes);
        outcome.map(|()| job_id)
    }

    fn resume(&mut self) -> Result<(), DeviceError> {
        self.w.resume_requested()?;
        let passes = self.parked.take().unwrap_or_default();
        let outcome = self.run_pass(&passes);
        self.park_if_held(passes);
        outcome
    }

    fn confirm_pass_done(&mut self) -> Result<(), DeviceError> {
        self.w.confirm_requested()?;
        let passes = self.parked.take().unwrap_or_default();
        let outcome = self.finish_pass();
        self.park_if_held(passes);
        outcome
    }

    /// A cancel arriving between commands: the abort, then a few polls for whether the
    /// machine stopped.
    fn cancel(&mut self) {
        if let Some((job, sent_whole)) = self.w.cancel_requested() {
            let passes = self.parked.take().unwrap_or_default();
            let submitted = if sent_whole {
                open_pass(self.dialect, &passes[job.pass_index], &Settings::default(), job.pass_index).len()
            } else {
                0
            };
            self.events.extend(self.w.cancel_begun());
            if let Some(abort) = self.dialect.abort_bytes() {
                let _ = write_all(&mut self.t, &abort);
            }
            let mut known = false;
            if !self.dialect.caps().needs_operator_pass_confirm {
                let query = self.dialect.status_query();
                for _ in 0..3 {
                    if cuthulhu::session::ready_after_cancel(&mut self.t, &query, Duration::from_millis(1)) {
                        known = true;
                        break;
                    }
                }
            }
            self.events.push(self.w.cancel_finished(submitted, known));
        }
    }
}

fn one_pass_job() -> Vec<Pass> {
    vec![Vec::new()]
}

fn two_pass_job() -> Vec<Pass> {
    vec![Vec::new(), Vec::new()]
}

fn count_subseq(haystack: &[u8], needle: &[u8]) -> usize {
    if needle.is_empty() || haystack.len() < needle.len() {
        return 0;
    }
    haystack.windows(needle.len()).filter(|w| *w == needle).count()
}

#[test]
fn connect_transitions_disconnected_to_idle_and_events_fire() {
    let mut b = Bench::cameo(0);
    assert_eq!(b.w.status().phase, Phase::Disconnected);
    b.connect().unwrap();
    assert_eq!(b.w.status().phase, Phase::Idle);
    let evs = b.drain();
    let changed_to =
        |phase| evs.iter().any(|e| matches!(e.kind, DeviceEventKind::StateChanged) && e.status.phase == phase);
    assert!(changed_to(Phase::Connecting));
    assert!(changed_to(Phase::Idle));
}

#[test]
fn two_pass_job_frames_session_once_and_pauses_for_swap() {
    let mut b = Bench::cameo(2);
    b.connect().unwrap();
    b.drain();

    let job_id = b.cut(two_pass_job()).unwrap();
    let parked = b.w.status();
    assert_eq!(parked.phase, Phase::AwaitingColorSwap);
    assert_eq!(parked.pass, Some(PassPosition { index: 1, total: 2 }), "parked before pass 2 of 2");
    b.resume().unwrap();
    assert_eq!(b.w.status().phase, Phase::Idle);

    let evs = b.drain();
    assert!(!evs.is_empty());
    assert!(evs.iter().all(|e| e.job_id == job_id));
    assert_eq!(evs.iter().filter(|e| matches!(e.kind, DeviceEventKind::PassComplete(_))).count(), 2);
    assert!(evs.iter().any(|e| matches!(e.kind, DeviceEventKind::JobComplete)));

    assert_eq!(count_subseq(&b.t.written, &[0x1b, 0x04]), 1, "one prologue for the whole job");
    assert_eq!(count_subseq(&b.t.written, b"SO0"), 1, "one epilogue for the whole job");
}

#[test]
fn resume_outside_swap_state_is_busy_and_cut_while_active_is_busy() {
    let mut b = Bench::cameo(0);
    b.connect().unwrap();
    assert_eq!(b.resume().unwrap_err(), DeviceError::Busy);

    let mut b2 = Bench::cameo(1);
    b2.connect().unwrap();
    b2.cut(two_pass_job()).unwrap();
    assert_eq!(b2.w.status().phase, Phase::AwaitingColorSwap);
    assert_eq!(b2.cut(one_pass_job()).unwrap_err(), DeviceError::Busy);
}

#[test]
fn operator_confirm_path_for_puma_caps() {
    let mut b = Bench::puma();
    b.connect().unwrap();
    let job_id = b.cut(one_pass_job()).unwrap();
    let awaiting = b.w.status();
    assert_eq!(awaiting.phase, Phase::AwaitingConfirmation);
    assert!(awaiting.actions.confirm, "the operator is the only way this pass completes");
    b.confirm_pass_done().unwrap();
    assert_eq!(b.w.status().phase, Phase::Idle);

    let evs = b.drain();
    assert!(evs.iter().any(|e| e.job_id == job_id && matches!(e.kind, DeviceEventKind::JobComplete)));
}

#[test]
fn stale_job_events_are_distinguishable() {
    let mut b = Bench::cameo(2);
    b.connect().unwrap();
    let job1 = b.cut(one_pass_job()).unwrap();
    assert_eq!(b.w.status().phase, Phase::Idle);
    let job2 = b.cut(one_pass_job()).unwrap();
    assert_eq!(b.w.status().phase, Phase::Idle);

    assert_ne!(job1, job2);
    let evs = b.drain();
    assert!(evs.iter().any(|e| e.job_id == job1 && matches!(e.kind, DeviceEventKind::JobComplete)));
    assert!(evs.iter().any(|e| e.job_id == job2 && matches!(e.kind, DeviceEventKind::JobComplete)));
    let first2 = evs.iter().position(|e| e.job_id == job2).expect("job2 reported");
    assert!(evs[first2..].iter().all(|e| e.job_id != job1), "no job-1 event may follow job 2's first");
}

#[test]
fn events_from_a_finished_job_do_not_reopen_it() {
    let mut b = Bench::cameo(1);
    b.connect().unwrap();
    let job = b.cut(one_pass_job()).expect("cut");
    let seen = b.drain();
    assert!(
        seen.iter().all(|e| e.job_id == job || e.job_id == NO_JOB),
        "no event may carry a foreign job id: {:?}",
        seen.iter().map(|e| e.job_id).collect::<Vec<_>>()
    );
    assert!(seen.iter().any(|e| e.job_id == job), "the job did report events of its own");
    assert_eq!(b.w.status().phase, Phase::Idle, "the job is over");
}

#[test]
fn a_completed_job_reports_completion_until_something_supersedes_it() {
    let mut b = Bench::cameo(2);
    b.connect().unwrap();
    assert_eq!(b.w.status().ended, None, "nothing has run yet");

    b.cut(one_pass_job()).expect("cut");
    let done = b.w.status();
    assert_eq!(done.ended, Some(Ended::Completed));
    assert_eq!(done.phase, Phase::Idle, "phase says what is happening now: nothing");
    assert_eq!(done.pass, None, "and a finished job leaves no pass position behind");

    b.disconnect();
    b.connect().expect("reconnect");
    assert_eq!(b.w.status().ended, None, "a fresh connection has cut nothing");

    b.cut(two_pass_job()).expect("cut");
    let parked = b.w.status();
    assert_eq!(parked.phase, Phase::AwaitingColorSwap);
    assert_eq!(parked.ended, None, "a job in flight has not ended");
}

#[test]
fn a_cancelled_job_reports_cancelled_and_allows_another_cut() {
    let mut b = Bench::cameo(3);
    b.connect().unwrap();
    b.cut(two_pass_job()).expect("cut");
    assert_eq!(b.w.status().phase, Phase::AwaitingColorSwap);
    b.cancel();

    let s = b.w.status();
    assert_eq!(s.ended, Some(Ended::Cancelled));
    assert!(s.actions.cut, "another cut is legal after a cancel");
    b.cut(one_pass_job()).expect("and the worker honours what actions promised");
}

#[test]
fn lifecycle_events_survive_a_finished_job() {
    let mut b = Bench::cameo(1);
    b.connect().unwrap();
    b.cut(one_pass_job()).expect("cut");
    b.drain();

    b.disconnect();
    let after = b.drain();
    assert!(after.iter().any(|e| e.job_id == NO_JOB), "disconnect must be reported");
    assert_eq!(b.w.status().phase, Phase::Disconnected);
}

#[test]
fn reconnecting_clears_a_cancel_whose_stop_was_never_confirmed() {
    let mut b = Bench::puma();
    b.connect().unwrap();
    b.cut(one_pass_job()).unwrap();
    assert_eq!(b.w.status().phase, Phase::AwaitingConfirmation);
    b.cancel();

    let stopped = b.w.status();
    assert_eq!(stopped.ended, Some(Ended::Cancelled));
    assert!(!stopped.actions.cut, "a Puma's stop is never confirmed, so no Job may follow it");
    assert_eq!(b.cut(one_pass_job()).unwrap_err(), DeviceError::Busy);

    b.disconnect();
    b.connect().unwrap();
    assert!(b.w.status().actions.cut, "a reconnected cutter accepts a Job again");
}

#[test]
fn write_zero_maps_to_typed_error() {
    let mut b = Bench::cameo(0);
    b.t.write_results = VecDeque::from(vec![Ok(0)]);
    b.connect().unwrap();
    b.drain();

    let err = b.cut(one_pass_job()).unwrap_err();
    assert_eq!(err, DeviceError::WriteZero);
    let evs = b.drain();
    assert!(evs.iter().any(|e| matches!(&e.kind, DeviceEventKind::Failed(DeviceError::WriteZero))));
}

fn assert_unplug_surfaces_typed_error(
    mut b: Bench,
    write_results: Vec<Result<usize, TransportError>>,
    drive: impl FnOnce(&mut Bench) -> Result<(), DeviceError>,
    expect: DeviceError,
) {
    b.t.write_results = write_results.into();
    b.connect().unwrap();
    let err = drive(&mut b).unwrap_err();
    assert_eq!(err, expect);
    let s = b.w.status();
    assert_eq!(s.phase, Phase::Failed);
    assert_eq!(s.error, Some(expect), "status names the same failure the call returned");
}

#[test]
fn unplug_during_each_active_state_reports_disconnected() {
    // Transmitting: the very first write fails.
    assert_unplug_surfaces_typed_error(
        Bench::cameo(0),
        vec![Err(TransportError::NotFound)],
        |b| b.cut(one_pass_job()).map(|_| ()),
        DeviceError::Disconnected,
    );

    // Awaiting completion: the pass lands, then the confirmation's session end fails.
    assert_unplug_surfaces_typed_error(
        Bench::puma(),
        vec![Ok(usize::MAX), Err(TransportError::Io("cable pulled".into()))],
        |b| {
            b.cut(one_pass_job())?;
            b.confirm_pass_done()
        },
        DeviceError::Io("cable pulled".into()),
    );

    // Waiting for a colour swap: pass 1 completes and parks, then the resumed pass fails.
    assert_unplug_surfaces_typed_error(
        Bench::cameo(1),
        vec![Ok(usize::MAX), Ok(usize::MAX), Err(TransportError::NotFound)],
        |b| {
            b.cut(two_pass_job())?;
            b.resume()
        },
        DeviceError::Disconnected,
    );
}

#[test]
fn unloaded_media_fails_fast_instead_of_polling_out_the_deadline() {
    let mut b = Bench::new(Dialect::Gpgl, vec![Ok(b"2\x03".to_vec())]);
    b.polls = 1000;
    b.connect().unwrap();
    let err = b.cut(two_pass_job()).unwrap_err();
    assert_eq!(err, DeviceError::Io("media unloaded".to_string()));
    assert_eq!(count_subseq(&b.t.written, &[0x05]), 1, "one poll, not a poll-out of the deadline");
}

#[test]
fn status_reports_a_dead_worker_instead_of_the_frozen_cell() {
    let s = status_of(&DeviceState::Error(DeviceError::Disconnected), 0, None);
    assert_eq!(s.phase, Phase::Failed, "a finished worker must not leave the cell reading Idle");
    assert_eq!(s.error, Some(DeviceError::Disconnected), "and it must say why");
    assert!(!s.actions.cut && !s.actions.cancel, "nothing can be done to a device with no worker");
}
