use cuthulhu::encode::{close_pass, frame_pass, gpgl_encode_pass, hpgl_encode_pass, open_pass, Dialect, UnitPoint};
use cuthulhu::session::{
    after_cancel_poll, after_poll, judge_poll, judge_probe, poll_status, probe_is_cutter, ready_after_cancel, send_chunk,
    PassWait, PollReply, CANCEL_POLLS,
};
use cuthulhu::status::{
    status_of, Actions, ByteProgress, DeviceError, DeviceState, Ended, PassPosition, Phase,
};
use cuthulhu::transport::{
    write_all, write_step, DeviceInfo, MachineCaps, MockTransport, Settings, Transport, TransportError,
    TransportKind, WriteStep,
};
use cuthulhu::worker::{Worker, WRITE_CHUNK};
use std::time::Duration;

// ---------------------------------------------------------------------------
// The wire
// ---------------------------------------------------------------------------

#[test]
fn mock_transport_records_all_bytes() {
    let mut t = MockTransport::default();
    t.write(b"AB").unwrap();
    t.write(b"C").unwrap();
    assert_eq!(t.written, b"ABC");
}

#[test]
fn default_settings_leave_speed_force_unset() {
    let s = Settings::default();
    assert!(s.speed.is_none() && s.force.is_none() && s.repeat_count == 1);
}

#[test]
fn write_all_loops_partial_writes_and_flags_zero() {
    let mut t = MockTransport::default();
    t.write_results.push_back(Ok(2));
    write_all(&mut t, b"HELLO").unwrap();
    assert_eq!(t.written, b"HELLO");

    let mut z = MockTransport::default();
    z.write_results.push_back(Ok(0));
    assert_eq!(write_all(&mut z, b"X"), Err(TransportError::WriteZero));
    assert!(z.written.is_empty());
    assert!(t.write_results.is_empty());
}

#[test]
fn write_all_stops_at_the_first_failure() {
    let mut z = MockTransport::default();
    z.write_results.extend([Ok(2), Ok(0), Ok(5)]);
    assert_eq!(write_all(&mut z, b"HELLO"), Err(TransportError::WriteZero));
    assert_eq!(z.written, b"HE");
    assert_eq!(z.write_results.len(), 1);

    let mut e = MockTransport::default();
    e.write_results.extend([Ok(1), Err(TransportError::Disconnected), Ok(5)]);
    assert_eq!(write_all(&mut e, b"HELLO"), Err(TransportError::Disconnected));
    assert_eq!(e.written, b"H");
    assert_eq!(e.write_results.len(), 1);
}

#[test]
fn write_all_of_nothing_makes_no_write() {
    let mut t = MockTransport::default();
    t.write_results.push_back(Err(TransportError::Timeout));
    assert_eq!(write_all(&mut t, b""), Ok(()));
    assert_eq!(t.write_results.len(), 1);
    assert!(t.written.is_empty());
}

#[test]
fn each_write_answer_decides_the_next_step() {
    assert!(matches!(write_step(0, 5, Ok(0)), WriteStep::Failed(TransportError::WriteZero)));
    assert!(matches!(write_step(0, 5, Ok(2)), WriteStep::Next(2)));
    assert!(matches!(write_step(2, 5, Ok(3)), WriteStep::Finished));
    assert!(matches!(write_step(4, 5, Err(TransportError::Timeout)), WriteStep::Failed(TransportError::Timeout)));
}

#[test]
fn mock_read_replays_script_then_times_out() {
    let mut t = MockTransport::default();
    t.reads.push_back(Ok(b"ready".to_vec()));
    let mut buf = [0u8; 8];
    let n = t.read(&mut buf, Duration::from_millis(10)).unwrap();
    assert_eq!(&buf[..n], b"ready");
    assert_eq!(t.read(&mut buf, Duration::from_millis(10)), Err(TransportError::Timeout));
}

#[test]
fn mock_write_clamps_scripted_count_to_buffer_length() {
    let mut t = MockTransport::default();
    t.write_results.push_back(Ok(6));
    let result = t.write(b"HELLO").unwrap();
    assert_eq!(result, 5);
    assert_eq!(t.written, b"HELLO");
}

fn listed_devices() -> Vec<DeviceInfo> {
    vec![
        DeviceInfo {
            instance_id: "usb:1:4".into(),
            machine_id: "cameo5".into(),
            transport: TransportKind::Usb { locator: "1:4".into() },
            candidate: false,
        },
        DeviceInfo {
            instance_id: "serial:/dev/ttyUSB0".into(),
            machine_id: "puma".into(),
            transport: TransportKind::Serial { path: "/dev/ttyUSB0".into(), baud: 9600 },
            candidate: true,
        },
    ]
}

#[test]
fn serial_devices_are_candidates_requiring_user_selection() {
    let serial: Vec<_> = listed_devices()
        .into_iter()
        .filter(|d| matches!(d.transport, TransportKind::Serial { .. }))
        .collect();
    assert!(serial.iter().all(|d| d.candidate), "serial ports can't be assumed to be Pumas");
}

// ---------------------------------------------------------------------------
// Status
// ---------------------------------------------------------------------------

#[test]
fn actions_state_which_calls_are_legal() {
    let idle = status_of(&DeviceState::Idle, 0, None);
    assert_eq!(idle.phase, Phase::Idle);
    assert!(idle.actions.cut && !idle.actions.cancel && !idle.actions.resume && !idle.actions.confirm);

    let swap = status_of(&DeviceState::WaitingForColorSwap { job_id: 1, next_pass_index: 1 }, 3, None);
    assert_eq!(swap.phase, Phase::AwaitingColorSwap);
    assert!(swap.actions.resume && swap.actions.cancel && !swap.actions.cut && !swap.actions.confirm);

    let await_done = status_of(&DeviceState::AwaitingCompletion { job_id: 1, pass_index: 0 }, 2, None);
    assert_eq!(await_done.phase, Phase::AwaitingConfirmation);
    assert!(await_done.actions.confirm && await_done.actions.cancel && !await_done.actions.resume);

    let sending = status_of(
        &DeviceState::Transmitting { job_id: 1, pass_index: 0, submitted_bytes: 40, total_bytes: 100 }, 2, None);
    assert_eq!(sending.phase, Phase::Sending);
    assert!(sending.actions.cancel && !sending.actions.cut);
}

#[test]
fn sending_carries_pass_and_byte_position() {
    let s = status_of(
        &DeviceState::Transmitting { job_id: 7, pass_index: 1, submitted_bytes: 4096, total_bytes: 20480 }, 3, None);
    assert_eq!(s.pass, Some(PassPosition { index: 1, total: 3 }));
    assert_eq!(s.sent, Some(ByteProgress { sent: 4096, total: 20480 }));
}

#[test]
fn a_finished_cut_and_a_cancelled_one_are_distinguishable() {
    let fresh = status_of(&DeviceState::Idle, 0, None);
    assert_eq!(fresh.phase, Phase::Idle);
    assert_eq!(fresh.ended, None, "nothing has run yet");

    let finished = status_of(&DeviceState::Idle, 3, Some(Ended::Completed));
    assert_eq!(finished.phase, Phase::Idle, "phase says what is happening now");
    assert_eq!(finished.ended, Some(Ended::Completed));

    let cancelled = status_of(
        &DeviceState::Cancelled { job_id: 1, pass_index: 1, submitted_bytes: 40, completion_known: true }, 3, None);
    assert_eq!(cancelled.phase, Phase::Idle, "a cancelled job is no longer in flight");
    assert_eq!(cancelled.ended, Some(Ended::Cancelled));
    assert_eq!(cancelled.pass, Some(PassPosition { index: 1, total: 3 }));
}

#[test]
fn another_cut_is_offered_only_when_the_stop_was_confirmed() {
    let cancelled = |completion_known| {
        status_of(
            &DeviceState::Cancelled { job_id: 1, pass_index: 0, submitted_bytes: 40, completion_known },
            2,
            None,
        )
    };
    assert!(cancelled(true).actions.cut, "a poll saw the machine at rest, so another Job may start");

    let unconfirmed = cancelled(false);
    assert!(!unconfirmed.actions.cut, "nothing saw it stop, so nothing may be started into it");
    assert_eq!(unconfirmed.actions, Actions::default(), "and there is no Job left to cancel, resume or confirm");
    assert_eq!(unconfirmed.ended, Some(Ended::Cancelled), "it still says how the job ended");
}

#[test]
fn a_fault_is_not_an_ending() {
    let failed = status_of(&DeviceState::Error(DeviceError::Timeout), 1, Some(Ended::Completed));
    assert_eq!(failed.phase, Phase::Failed);
    assert_eq!(failed.ended, None);
    assert_eq!(failed.error, Some(DeviceError::Timeout));
}

#[test]
fn is_active_covers_every_mid_flight_phase() {
    for state in [
        DeviceState::Transmitting { job_id: 1, pass_index: 0, submitted_bytes: 0, total_bytes: 1 },
        DeviceState::AwaitingCompletion { job_id: 1, pass_index: 0 },
        DeviceState::WaitingForColorSwap { job_id: 1, next_pass_index: 1 },
        DeviceState::CancelRequested { job_id: 1 },
        DeviceState::Stopping { job_id: 1 },
    ] {
        assert!(status_of(&state, 2, None).is_active(), "{state:?} is mid-flight");
    }
    for state in [DeviceState::Idle, DeviceState::Disconnected] {
        assert!(!status_of(&state, 0, None).is_active(), "{state:?} is not mid-flight");
    }
}

// ---------------------------------------------------------------------------
// Talking to a machine around a pass
// ---------------------------------------------------------------------------

fn scripted(reads: Vec<Result<Vec<u8>, TransportError>>) -> MockTransport {
    let mut t = MockTransport::default();
    for r in reads {
        t.reads.push_back(r);
    }
    t
}

const WAIT: Duration = Duration::from_millis(1);

#[test]
fn a_ready_reply_finishes_the_poll_and_a_moving_one_keeps_it_going() {
    let mut t = scripted(vec![Ok(b"1\x03".to_vec()), Ok(b"0\x03".to_vec())]);
    assert_eq!(poll_status(&mut t, &[0x05], WAIT).unwrap(), PollReply::NotReady);
    assert_eq!(poll_status(&mut t, &[0x05], WAIT).unwrap(), PollReply::Ready);
    assert_eq!(t.written, vec![0x05, 0x05], "each poll sends the status query");
    assert_eq!(poll_status(&mut t, &[0x05], WAIT).unwrap(), PollReply::NotReady, "silence keeps polling");
}

#[test]
fn unloaded_media_fails_the_poll_instead_of_polling_out_the_deadline() {
    let mut t = scripted(vec![Ok(b"2\x03".to_vec())]);
    assert_eq!(poll_status(&mut t, &[0x05], WAIT).unwrap_err(), DeviceError::Io("media unloaded".into()));
}

#[test]
fn a_hard_transport_failure_fails_the_poll_fast() {
    assert_eq!(judge_poll(&Err(TransportError::Disconnected), 0).unwrap_err(), DeviceError::Disconnected);
    assert_eq!(judge_poll(&Err(TransportError::NotFound), 0).unwrap_err(), DeviceError::Disconnected);
    assert_eq!(judge_poll(&Err(TransportError::Io("x".into())), 0).unwrap_err(), DeviceError::Io("x".into()));
    assert_eq!(judge_poll(&Ok(0), b'0').unwrap(), PollReply::NotReady, "an empty reply says nothing");
    let mut broken = MockTransport::default();
    broken.write_results.push_back(Ok(0));
    assert_eq!(poll_status(&mut broken, &[0x05], WAIT).unwrap_err(), DeviceError::WriteZero);
}

#[test]
fn candidate_device_answering_status_connects() {
    for reply in [b"0", b"1", b"2"] {
        let mut t = scripted(vec![Ok(reply.to_vec())]);
        assert!(probe_is_cutter(&mut t, &[0x05], "serial:at:/dev/ttyUSB0", WAIT).is_ok());
    }
}

#[test]
fn silent_candidate_device_is_refused_instead_of_connected() {
    let mut t = scripted(vec![]);
    assert_eq!(
        probe_is_cutter(&mut t, &[0x05], "serial:at:/dev/ttyUSB0", WAIT).unwrap_err(),
        DeviceError::Io("serial:at:/dev/ttyUSB0 did not answer a status query, so it cannot be confirmed as a cutter".into())
    );
    assert_eq!(judge_probe(&Ok(0), b'0', "p").unwrap_err(),
        DeviceError::Io("p did not answer a status query, so it cannot be confirmed as a cutter".into()));
}

#[test]
fn candidate_device_answering_junk_is_refused() {
    let mut t = scripted(vec![Ok(b"?".to_vec())]);
    assert_eq!(
        probe_is_cutter(&mut t, &[0x05], "serial:at:/dev/ttyUSB0", WAIT).unwrap_err(),
        DeviceError::Io("serial:at:/dev/ttyUSB0 answered a status query with something other than a status: not a cutter, or not one this driver speaks".into())
    );
}

#[test]
fn a_cancel_is_confirmed_only_by_a_ready_reply() {
    let mut t = scripted(vec![Ok(b"1".to_vec()), Ok(b"0".to_vec())]);
    assert!(!ready_after_cancel(&mut t, &[0x05], WAIT));
    assert!(ready_after_cancel(&mut t, &[0x05], WAIT));
    assert!(!ready_after_cancel(&mut t, &[0x05], WAIT), "no reply is not a stop");
    let mut broken = MockTransport::default();
    broken.write_results.push_back(Err(TransportError::Disconnected));
    assert!(!ready_after_cancel(&mut broken, &[0x05], WAIT));
}

#[test]
fn a_pass_goes_out_a_chunk_at_a_time() {
    let bytes: Vec<u8> = (0..(WRITE_CHUNK * 2 + 10)).map(|i| (i % 251) as u8).collect();
    let mut t = MockTransport::default();
    let mut sent = 0;
    let mut steps = vec![];
    while sent < bytes.len() {
        sent = send_chunk(&mut t, &bytes, sent).unwrap();
        steps.push(sent);
    }
    assert_eq!(steps, vec![WRITE_CHUNK, WRITE_CHUNK * 2, WRITE_CHUNK * 2 + 10]);
    assert_eq!(t.written, bytes);
}

#[test]
fn transport_write_error_mid_job_fails_loudly() {
    let mut t = MockTransport::default();
    t.write_results.push_back(Err(TransportError::Io("boom".into())));
    assert_eq!(send_chunk(&mut t, b"abc", 0).unwrap_err(), DeviceError::Io("boom".into()));
    let mut z = MockTransport::default();
    z.write_results.push_back(Ok(0));
    assert_eq!(send_chunk(&mut z, b"abc", 0).unwrap_err(), DeviceError::WriteZero);
}

// ---------------------------------------------------------------------------
// The worker's decisions
// ---------------------------------------------------------------------------

#[test]
fn connect_transitions_disconnected_to_idle() {
    let mut w = Worker::new();
    assert_eq!(w.status().phase, Phase::Disconnected);
    let events = w.connect_requested().unwrap();
    assert!(!events.is_empty());
    assert_eq!(w.status().phase, Phase::Connecting);
    w.connect_finished(Ok(()));
    assert_eq!(w.status().phase, Phase::Idle);
}

#[test]
fn connect_failure_yields_error_state_and_reconnect_recovers() {
    let mut w = Worker::new();
    w.connect_requested().unwrap();
    w.connect_finished(Err(DeviceError::Disconnected));
    assert_eq!(w.status().phase, Phase::Failed);
    assert!(w.connect_requested().is_ok(), "a failed device may be connected again");
    w.connect_finished(Ok(()));
    assert_eq!(w.status().phase, Phase::Idle);
}

#[test]
fn double_connect_is_busy() {
    let mut w = Worker::new();
    w.connect_requested().unwrap();
    w.connect_finished(Ok(()));
    assert!(matches!(w.connect_requested(), Err(DeviceError::Busy)));
}

#[test]
fn resume_and_confirm_are_busy_with_no_active_job_and_cancel_is_noop() {
    let mut w = Worker::new();
    w.connect_requested().unwrap();
    w.connect_finished(Ok(()));
    assert!(matches!(w.resume_requested(), Err(DeviceError::Busy)));
    assert!(matches!(w.confirm_requested(), Err(DeviceError::Busy)));
    assert!(w.cancel_requested().is_none());
    assert_eq!(w.status().phase, Phase::Idle);
}

#[test]
fn disconnect_returns_to_disconnected() {
    let mut w = Worker::new();
    w.connect_requested().unwrap();
    w.connect_finished(Ok(()));
    w.disconnect();
    assert_eq!(w.status().phase, Phase::Disconnected);
}

#[test]
fn a_cut_needs_a_connected_idle_device() {
    let mut w = Worker::new();
    assert!(matches!(w.cut_requested(1), Err(DeviceError::Busy)), "nothing is connected");
    w.connect_requested().unwrap();
    w.connect_finished(Ok(()));
    let (job_id, _events) = w.cut_requested(2).unwrap();
    assert_eq!(job_id, 1, "job ids start at 1");
}

// ---------------------------------------------------------------------------
// Encoding
// ---------------------------------------------------------------------------

/// Millimetres in machine units: 1016 per inch for HP-GL, 20 per millimetre for GP-GL.
fn hpgl_units(mm: &[(f64, f64)]) -> Vec<UnitPoint> {
    mm.iter().map(|&(x, y)| ((x / 25.4 * 1016.0).round() as i64, (y / 25.4 * 1016.0).round() as i64)).collect()
}

fn gpgl_units(mm: &[(f64, f64)]) -> Vec<UnitPoint> {
    mm.iter().map(|&(x, y)| ((x * 20.0).round() as i64, (y * 20.0).round() as i64)).collect()
}

const SQUARE: [(f64, f64); 5] = [(0.0, 0.0), (20.0, 0.0), (20.0, 20.0), (0.0, 20.0), (0.0, 0.0)];

#[test]
fn encodes_square_to_documented_hpgl_stream() {
    let d = Dialect::Hpgl;
    let mut bytes = d.session_begin();
    bytes.extend(hpgl_encode_pass(&vec![hpgl_units(&SQUARE)], &Settings::default()));
    bytes.extend(d.session_end());
    assert_eq!(String::from_utf8(bytes).unwrap(), "IN;PU0,0;PD800,0;PD800,800;PD0,800;PD0,0;PU;");
}

#[test]
fn hpgl_session_framing_has_one_prologue_and_one_epilogue_across_two_passes() {
    let d = Dialect::Hpgl;
    let job = |x: f64| vec![hpgl_units(&[(0.0, 0.0), (x, 0.0)])];
    let settings = Settings { speed: None, force: None, repeat_count: 1 };
    let mut bytes = d.session_begin();
    bytes.extend(d.encode_pass(&job(10.0), &settings));
    bytes.extend(d.pass_park());
    bytes.extend(d.encode_pass(&job(20.0), &settings));
    bytes.extend(d.session_end());
    let count = |needle: &[u8]| bytes.windows(needle.len()).filter(|w| *w == needle).count();
    assert_eq!(count(b"IN;"), 1, "exactly one prologue");
    assert_eq!(count(b"PD400,0;"), 1, "per-pass geometry present");
    assert_eq!(count(b"PD800,0;"), 1, "per-pass geometry present");
    assert!(bytes.ends_with(b"PU;"), "session ends with epilogue");
}

#[test]
fn hpgl_single_pass_session_is_byte_identical_to_sp2_encoding() {
    let d = Dialect::Hpgl;
    let settings = Settings { speed: None, force: None, repeat_count: 2 };
    let mut session = d.session_begin();
    session.extend(d.encode_pass(&vec![hpgl_units(&[(1.0, 2.0), (3.0, 4.0)])], &settings));
    session.extend(d.session_end());
    assert_eq!(session, b"IN;PU40,80;PD120,160;PU40,80;PD120,160;PU;".to_vec());
}

#[test]
fn caps_and_abort_bytes_match_the_documented_contract() {
    let d = Dialect::Hpgl;
    assert_eq!(d.caps(), MachineCaps { supports_speed: false, supports_force: false, needs_operator_pass_confirm: true });
    assert_eq!(d.abort_bytes(), Some(b"PU;".to_vec()));
    assert_eq!(Dialect::Gpgl.abort_bytes(), None);
    assert_eq!(Dialect::Gpgl.caps(), MachineCaps { supports_speed: true, supports_force: true, needs_operator_pass_confirm: false });
    assert_eq!(d.status_query(), vec![0x05]);
}

#[test]
fn encodes_square_to_documented_gpgl_stream() {
    let d = Dialect::Gpgl;
    let mut bytes = d.session_begin();
    bytes.extend(gpgl_encode_pass(&vec![gpgl_units(&SQUARE)], &Settings::default()));
    bytes.extend(d.session_end());
    let mut want = vec![0x1b, 0x04];
    for cmd in ["J1", "M0,0", "D0,400", "D400,400", "D400,0", "D0,0", "SO0", "FN0"] {
        want.extend_from_slice(cmd.as_bytes());
        want.push(0x03);
    }
    assert_eq!(bytes, want);
}

#[test]
fn speed_and_force_emitted_only_when_set() {
    let with = gpgl_encode_pass(&vec![gpgl_units(&SQUARE)], &Settings { speed: Some(10), force: Some(20), repeat_count: 1 });
    let s = String::from_utf8_lossy(&with).to_string();
    assert!(s.contains("!10,1\u{3}") && s.contains("FX20,1\u{3}"));
    let without = gpgl_encode_pass(&vec![gpgl_units(&SQUARE)], &Settings::default());
    let s = String::from_utf8_lossy(&without).to_string();
    assert!(!s.contains('!') && !s.contains("FX"));
}

#[test]
fn gpgl_session_framing_has_one_prologue_and_one_epilogue_across_two_passes() {
    let d = Dialect::Gpgl;
    let job = vec![gpgl_units(&[(0.0, 0.0), (10.0, 0.0)])];
    let s = |force| Settings { speed: Some(5), force: Some(force), repeat_count: 1 };
    let mut bytes = d.session_begin();
    bytes.extend(d.encode_pass(&job, &s(10)));
    bytes.extend(d.pass_park());
    bytes.extend(d.encode_pass(&job, &s(20)));
    bytes.extend(d.session_end());
    let count = |needle: &[u8]| bytes.windows(needle.len()).filter(|w| *w == needle).count();
    assert_eq!(count(&[0x1b, 0x04]), 1, "exactly one ESC EOT prologue");
    assert_eq!(count(b"SO0"), 1, "exactly one feed-out epilogue");
    assert_eq!(count(b"FX10,1"), 1);
    assert_eq!(count(b"FX20,1"), 1, "per-pass settings present");
}

#[test]
fn gpgl_single_pass_session_is_byte_identical_to_sp2_encoding() {
    let d = Dialect::Gpgl;
    let settings = Settings { speed: Some(8), force: Some(12), repeat_count: 2 };
    let mut session = d.session_begin();
    session.extend(d.encode_pass(&vec![gpgl_units(&[(1.0, 2.0), (3.0, 4.0)])], &settings));
    session.extend(d.session_end());
    let mut want = vec![0x1b, 0x04];
    for cmd in ["J1", "!8,1", "FX12,1", "M40,20", "D80,60", "M40,20", "D80,60", "SO0", "FN0"] {
        want.extend_from_slice(cmd.as_bytes());
        want.push(0x03);
    }
    assert_eq!(session, want);
}

#[test]
fn negative_units_and_empty_polylines_encode_as_written() {
    let out = hpgl_encode_pass(&vec![vec![], vec![(-5, 7)]], &Settings { speed: None, force: None, repeat_count: 0 });
    assert_eq!(out, b"PU-5,7;".to_vec(), "an empty polyline writes nothing and a zero repeat cuts once");
    let out = gpgl_encode_pass(&vec![vec![(i64::MIN, 0)]], &Settings::default());
    let mut want = b"J1\x03".to_vec();
    want.extend_from_slice(b"M0,-9223372036854775808\x03");
    assert_eq!(out, want);
}

#[test]
fn only_the_first_pass_carries_the_session_prologue() {
    assert_eq!(frame_pass(0, &b"BEGIN".to_vec(), &b"PASS0".to_vec()), b"BEGINPASS0".to_vec());
    assert_eq!(frame_pass(1, &b"BEGIN".to_vec(), &b"PASS0".to_vec()), b"PASS0".to_vec());
    let polys: Vec<Vec<UnitPoint>> = vec![];
    assert_eq!(open_pass(Dialect::Hpgl, &polys, &Settings::default(), 0), b"IN;".to_vec());
    assert_eq!(open_pass(Dialect::Hpgl, &polys, &Settings::default(), 1), Vec::<u8>::new());
}

#[test]
fn a_pass_parks_unless_it_is_the_last_one() {
    assert_eq!(close_pass(Dialect::Hpgl, 0, 2), b"PU;".to_vec(), "another Pass follows, so park");
    assert_eq!(close_pass(Dialect::Gpgl, 1, 2), b"SO0\x03FN0\x03".to_vec(), "the last Pass closes the session");
    assert_eq!(close_pass(Dialect::Gpgl, 0, 1), b"SO0\x03FN0\x03".to_vec());
    assert_eq!(close_pass(Dialect::Gpgl, 0, 2), Vec::<u8>::new(), "GP-GL has no park");
}

#[test]
fn a_pass_wait_finishes_fails_or_polls_again() {
    assert!(matches!(after_poll(Ok(PollReply::Ready), true), PassWait::Finished));
    assert!(matches!(after_poll(Ok(PollReply::Ready), false), PassWait::Finished));
    assert!(matches!(after_poll(Ok(PollReply::NotReady), false), PassWait::Again));
    assert!(matches!(after_poll(Ok(PollReply::NotReady), true), PassWait::Failed(DeviceError::Timeout)));
    assert!(matches!(after_poll(Err(DeviceError::Disconnected), false), PassWait::Failed(DeviceError::Disconnected)));
}

#[test]
fn cancel_polls_stop_when_ready_or_spent() {
    assert_eq!(after_cancel_poll(true, 1), Some(true));
    assert_eq!(after_cancel_poll(false, 1), None);
    assert_eq!(after_cancel_poll(false, CANCEL_POLLS - 1), None);
    assert_eq!(after_cancel_poll(false, CANCEL_POLLS), Some(false));
    assert_eq!(after_cancel_poll(true, CANCEL_POLLS), Some(true));
}

#[test]
fn a_new_worker_can_number_jobs() {
    assert!(Worker::new().can_number_another_job());
}

#[test]
fn a_failed_status_query_is_not_followed_by_a_read() {
    let mut t = MockTransport::default();
    t.write_results.push_back(Err(TransportError::Disconnected));
    t.reads.push_back(Ok(vec![0x30]));
    assert!(matches!(poll_status(&mut t, b"\x1b\x05", Duration::from_millis(5)), Err(DeviceError::Disconnected)));
    assert_eq!(t.reads.len(), 1);
    assert!(ready_after_cancel(&mut t, b"Q", Duration::from_millis(5)));
    assert!(t.reads.is_empty());
}

#[test]
fn a_failed_chunk_keeps_the_transport_error() {
    let mut t = MockTransport::default();
    t.write_results.push_back(Err(TransportError::Timeout));
    assert!(matches!(send_chunk(&mut t, b"PD0,0;", 0), Err(DeviceError::Timeout)));
    let mut z = MockTransport::default();
    z.write_results.push_back(Ok(0));
    assert!(matches!(send_chunk(&mut z, b"PD0,0;", 2), Err(DeviceError::WriteZero)));
}
