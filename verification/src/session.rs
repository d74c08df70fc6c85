//! Talking to a machine around a pass: handing a pass over a chunk at a time, asking whether a
//! pass is done, and confirming that a device an operator picked is a cutter at all. A cutter
//! answers the status query with one status byte: `0` ready, `1` moving, `2` media unloaded.
use vstd::prelude::*;
use std::time::Duration;
use crate::status::{device_error_from, device_error_of, DeviceError, DeviceErrorView};
use crate::transport::{
    reply_view, write_all, write_all_outcome, ReadRecord, Transport, TransportError, TransportErrorView, WriteRecord,
};
use crate::worker::WRITE_CHUNK;

verus! {

/// The status byte of a machine that is ready.
pub const STATUS_READY: u8 = 0x30;

/// The status byte of a machine whose media is unloaded.
pub const STATUS_UNLOADED: u8 = 0x32;

/// How many bytes of room the read after a status query has.
pub const STATUS_ROOM: usize = 8;

/// `after` is `before` with more added at its end.
pub open spec fn grown<A>(before: Seq<A>, after: Seq<A>) -> bool {
    before.len() <= after.len() && after.take(before.len() as int) == before
}

/// How handing `query` to a transport and then reading its answer went, by the writes and reads
/// the transport logged before (`writes0`, `reads0`) and after (`writes1`, `reads1`): the
/// outcome of handing `query` over whole, where the writes made are those a write-all of it
/// makes, no read followed a failure, and exactly one read followed success, with
/// `STATUS_ROOM` bytes of room and `wait` to answer in. Nothing otherwise.
pub open spec fn exchange(
    query: Seq<u8>,
    writes0: Seq<WriteRecord>,
    writes1: Seq<WriteRecord>,
    reads0: Seq<ReadRecord>,
    reads1: Seq<ReadRecord>,
    wait: Duration,
) -> Option<Result<(), TransportErrorView>> {
    if !grown(writes0, writes1) {
        None
    } else {
        match write_all_outcome(query, writes1.skip(writes0.len() as int)) {
            Some(Ok(())) => if reads1.len() == reads0.len() + 1 && reads1.drop_last() == reads0
                && reads1.last().0 == STATUS_ROOM && reads1.last().1 == wait && reads1.last().3.len()
                == STATUS_ROOM {
                Some(Ok(()))
            } else {
                None
            },
            Some(Err(e)) => if reads1 == reads0 {
                Some(Err(e))
            } else {
                None
            },
            None => None,
        }
    }
}

/// What the last read of a log answered, and the first byte it left in its buffer.
pub open spec fn last_answer(reads: Seq<ReadRecord>) -> (Result<usize, TransportErrorView>, u8) {
    (reads.last().2, reads.last().3[0])
}

/// What one status poll learned: the pass is done, or not yet.
#[derive(Clone, Copy, Debug, PartialEq, Eq, Structural)]
pub enum PollReply {
    Ready,
    NotReady,
}

/// A device outcome, with its error as values.
pub open spec fn device_outcome<T>(r: Result<T, DeviceError>) -> Result<T, DeviceErrorView> {
    match r {
        Ok(v) => Ok(v),
        Err(e) => Err(e@),
    }
}

/// What a poll decides from the read that followed the status query and the first byte read:
/// `0` means ready; `2` means the media is unloaded, which can never become ready by itself; any
/// other reply, an empty one, or no reply in time means keep polling; a transport failure fails.
pub open spec fn poll_verdict(reply: Result<usize, TransportErrorView>, first: u8) -> Result<
    PollReply,
    DeviceErrorView,
> {
    match reply {
        Ok(n) => if n > 0 && first == STATUS_READY {
            Ok(PollReply::Ready)
        } else if n > 0 && first == STATUS_UNLOADED {
            Err(DeviceErrorView::Io("media unloaded"@))
        } else {
            Ok(PollReply::NotReady)
        },
        Err(TransportErrorView::Timeout) => Ok(PollReply::NotReady),
        Err(e) => Err(device_error_of(e)),
    }
}

/// Decides a poll from the read's outcome and the first byte read.
pub fn judge_poll(reply: &Result<usize, TransportError>, first: u8) -> (r: Result<PollReply, DeviceError>)
    ensures
        device_outcome(r) == poll_verdict(reply_view(*reply), first),
{
    match reply {
        Ok(n) => if *n > 0 && first == STATUS_READY {
            Ok(PollReply::Ready)
        } else if *n > 0 && first == STATUS_UNLOADED {
            Err(DeviceError::Io(String::from_str("media unloaded")))
        } else {
            Ok(PollReply::NotReady)
        },
        Err(TransportError::Timeout) => Ok(PollReply::NotReady),
        Err(e) => Err(device_error_from(e)),
    }
}

/// Sends the status query and reads the answer for up to `wait`, then decides as `judge_poll`
/// does. A failed write fails the poll with the transport's error.
pub fn poll_status<T: Transport + ?Sized>(t: &mut T, query: &[u8], wait: Duration) -> (r: Result<
    PollReply,
    DeviceError,
>)
    ensures
        r is Ok ==> final(t).delivered() == old(t).delivered() + query@,
        exchange(query@, old(t).writes(), final(t).writes(), old(t).read_log(), final(t).read_log(), wait) matches Some(
            w,
        ) && match w {
            Err(e) => device_outcome(r) == Err::<PollReply, DeviceErrorView>(device_error_of(e)),
            Ok(()) => device_outcome(r) == poll_verdict(
                last_answer(final(t).read_log()).0,
                last_answer(final(t).read_log()).1,
            ),
        },
{
    let ghost reads0 = t.read_log();
    match write_all(t, query) {
        Err(e) => {
            let r = Err(DeviceError::from(e));
            assert(device_outcome(r) == Err::<PollReply, DeviceErrorView>(device_error_of(e@)));
            return r;
        },
        Ok(()) => {},
    }
    let mut buf: [u8; STATUS_ROOM] = [0u8; STATUS_ROOM];
    let reply = t.read(&mut buf, wait);
    assert(t.read_log().drop_last() =~= reads0);
    let r = judge_poll(&reply, buf[0]);
    assert(device_outcome(r) == poll_verdict(reply_view(reply), buf[0]));
    r
}

/// What confirming a cutter decides from the read that followed the status query: any status
/// byte `0` to `2` confirms it; other bytes name a device that is not a cutter, or not one this
/// driver speaks; no answer in time leaves it unconfirmed; a transport failure fails. `place`
/// names the device in the refusal.
pub open spec fn probe_verdict(reply: Result<usize, TransportErrorView>, first: u8, place: Seq<char>) -> Result<
    (),
    DeviceErrorView,
> {
    match reply {
        Ok(n) => if n > 0 && 0x30 <= first <= 0x32 {
            Ok(())
        } else if n > 0 {
            Err(
                DeviceErrorView::Io(
                    place
                        + " answered a status query with something other than a status: not a cutter, or not one this driver speaks"@,
                ),
            )
        } else {
            Err(
                DeviceErrorView::Io(
                    place + " did not answer a status query, so it cannot be confirmed as a cutter"@,
                ),
            )
        },
        Err(TransportErrorView::Timeout) => Err(
            DeviceErrorView::Io(
                place + " did not answer a status query, so it cannot be confirmed as a cutter"@,
            ),
        ),
        Err(e) => Err(device_error_of(e)),
    }
}

/// Decides whether a device answered as a cutter.
pub fn judge_probe(reply: &Result<usize, TransportError>, first: u8, place: &str) -> (r: Result<(), DeviceError>)
    ensures
        device_outcome(r) == probe_verdict(reply_view(*reply), first, place@),
{
    let silent = " did not answer a status query, so it cannot be confirmed as a cutter";
    match reply {
        Ok(n) => if *n > 0 && 0x30 <= first && first <= 0x32 {
            Ok(())
        } else if *n > 0 {
            let mut m = String::from_str(place);
            m.append(
                " answered a status query with something other than a status: not a cutter, or not one this driver speaks",
            );
            Err(DeviceError::Io(m))
        } else {
            let mut m = String::from_str(place);
            m.append(silent);
            Err(DeviceError::Io(m))
        },
        Err(TransportError::Timeout) => {
            let mut m = String::from_str(place);
            m.append(silent);
            Err(DeviceError::Io(m))
        },
        Err(e) => Err(device_error_from(e)),
    }
}

/// Confirms that the device behind `t` is a cutter before it is reported connected: sends the
/// status query and judges the answer read within `wait`, as `judge_probe` does.
pub fn probe_is_cutter<T: Transport + ?Sized>(t: &mut T, query: &[u8], place: &str, wait: Duration) -> (r:
    Result<(), DeviceError>)
    ensures
        r is Ok ==> final(t).delivered() == old(t).delivered() + query@,
        exchange(query@, old(t).writes(), final(t).writes(), old(t).read_log(), final(t).read_log(), wait) matches Some(
            w,
        ) && match w {
            Err(e) => device_outcome(r) == Err::<(), DeviceErrorView>(device_error_of(e)),
            Ok(()) => device_outcome(r) == probe_verdict(
                last_answer(final(t).read_log()).0,
                last_answer(final(t).read_log()).1,
                place@,
            ),
        },
{
    let ghost reads0 = t.read_log();
    match write_all(t, query) {
        Err(e) => {
            let r = Err(DeviceError::from(e));
            assert(device_outcome(r) == Err::<(), DeviceErrorView>(device_error_of(e@)));
            return r;
        },
        Ok(()) => {},
    }
    let mut buf: [u8; STATUS_ROOM] = [0u8; STATUS_ROOM];
    let reply = t.read(&mut buf, wait);
    assert(t.read_log().drop_last() =~= reads0);
    let r = judge_probe(&reply, buf[0], place);
    assert(device_outcome(r) == probe_verdict(reply_view(reply), buf[0], place@));
    r
}

/// Whether one poll after a cancel saw the machine ready: the query went out whole and the read
/// brought back `0` first.
pub open spec fn seen_ready(reply: Result<usize, TransportErrorView>, first: u8) -> bool {
    reply matches Ok(n) && n > 0 && first == STATUS_READY
}

/// Decides one poll after a cancel from the read's outcome and the first byte read: whether the
/// machine answered ready.
pub fn judge_ready(reply: &Result<usize, TransportError>, first: u8) -> (r: bool)
    ensures
        r == seen_ready(reply_view(*reply), first),
{
    match reply {
        Ok(n) => *n > 0 && first == STATUS_READY,
        Err(_) => false,
    }
}

/// One poll after a cancel: sends the status query and reports whether the machine answered
/// ready within `wait`. Any failure counts as not seen ready.
pub fn ready_after_cancel<T: Transport + ?Sized>(t: &mut T, query: &[u8], wait: Duration) -> (r: bool)
    ensures
        r ==> final(t).delivered() == old(t).delivered() + query@,
        exchange(query@, old(t).writes(), final(t).writes(), old(t).read_log(), final(t).read_log(), wait) matches Some(
            w,
        ) && match w {
            Err(_) => !r,
            Ok(()) => r == seen_ready(last_answer(final(t).read_log()).0, last_answer(final(t).read_log()).1),
        },
{
    let ghost reads0 = t.read_log();
    match write_all(t, query) {
        Err(_) => {
            return false;
        },
        Ok(()) => {},
    }
    let mut buf: [u8; STATUS_ROOM] = [0u8; STATUS_ROOM];
    let reply = t.read(&mut buf, wait);
    assert(t.read_log().drop_last() =~= reads0);
    judge_ready(&reply, buf[0])
}

/// Where the chunk that starts at `submitted` ends: `WRITE_CHUNK` bytes on, or the end.
pub open spec fn chunk_end(submitted: int, total: int) -> int {
    if submitted + WRITE_CHUNK < total {
        submitted + WRITE_CHUNK
    } else {
        total
    }
}

/// Hands the next chunk of a pass, from `submitted`, to the transport: `Ok` with how far the
/// pass has now been sent once the whole chunk is accepted, and the transport's failure
/// otherwise.
pub fn send_chunk<T: Transport + ?Sized>(t: &mut T, bytes: &[u8], submitted: usize) -> (r: Result<
    usize,
    DeviceError,
>)
    requires
        submitted < bytes@.len(),
    ensures
        r matches Ok(n) ==> n == chunk_end(submitted as int, bytes@.len() as int) && final(t).delivered()
            == old(t).delivered() + bytes@.subrange(submitted as int, n as int),
        grown(old(t).writes(), final(t).writes()),
        final(t).read_log() == old(t).read_log(),
        write_all_outcome(
            bytes@.subrange(submitted as int, chunk_end(submitted as int, bytes@.len() as int)),
            final(t).writes().skip(old(t).writes().len() as int),
        ) matches Some(w) && match w {
            Ok(()) => r == Ok::<usize, DeviceError>(chunk_end(submitted as int, bytes@.len() as int) as usize),
            Err(x) => r matches Err(e) && e@ == device_error_of(x),
        },
{
    let end: usize = if bytes.len() - submitted > WRITE_CHUNK {
        submitted + WRITE_CHUNK
    } else {
        bytes.len()
    };
    let chunk = &bytes[submitted..end];
    match write_all(t, chunk) {
        Ok(()) => {
            assert(chunk@ =~= bytes@.subrange(submitted as int, end as int));
            Ok(end)
        },
        Err(e) => {
            let d = DeviceError::from(e);
            assert(d@ == device_error_of(e@));
            Err(d)
        },
    }
}

/// How many status polls after a cancel look for the machine stopped before its stop is left
/// unknown.
pub const CANCEL_POLLS: u8 = 3;

/// What the wait for a sent pass does after one status poll.
pub enum PassWait {
    /// The machine is done with the pass.
    Finished,
    /// The pass fails with this error.
    Failed(DeviceError),
    /// Poll again.
    Again,
}

/// After one status poll of a sent pass, given whether its deadline has passed: a ready machine
/// finishes the pass, whenever it answers; a failed poll fails it; otherwise the wait goes on,
/// until the deadline fails it as a timeout.
pub fn after_poll(reply: Result<PollReply, DeviceError>, deadline_passed: bool) -> (r: PassWait)
    ensures
        match reply {
            Ok(PollReply::Ready) => r is Finished,
            Ok(PollReply::NotReady) => if deadline_passed {
                r matches PassWait::Failed(e) && e@ == DeviceErrorView::Timeout
            } else {
                r is Again
            },
            Err(e) => r matches PassWait::Failed(x) && x@ == e@,
        },
{
    match reply {
        Ok(PollReply::Ready) => PassWait::Finished,
        Ok(PollReply::NotReady) => if deadline_passed {
            PassWait::Failed(DeviceError::Timeout)
        } else {
            PassWait::Again
        },
        Err(e) => PassWait::Failed(e),
    }
}

/// After poll number `done` (counting from one) following a cancel, whether it saw the machine
/// ready: seen ready, the stop is known; otherwise the polls go on until `CANCEL_POLLS` have
/// been made, and then the stop is left unknown. `None` means poll again.
pub fn after_cancel_poll(ready: bool, done: u8) -> (r: Option<bool>)
    ensures
        ready ==> r == Some(true),
        !ready && done >= CANCEL_POLLS ==> r == Some(false),
        !ready && done < CANCEL_POLLS ==> r is None,
{
    if ready {
        Some(true)
    } else if done >= CANCEL_POLLS {
        Some(false)
    } else {
        None
    }
}

} // verus!
