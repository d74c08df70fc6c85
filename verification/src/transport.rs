//! The wire a driver's bytes travel over, the errors it reports, and what a device connection
//! is described by.
use vstd::prelude::*;
use std::collections::VecDeque;
use std::time::Duration;

verus! {

/// Per-pass machine settings. `None` leaves the machine's own panel setting in force.
#[derive(Clone, Copy, Debug, PartialEq, Eq, Structural)]
pub struct Settings {
    pub speed: Option<u32>,
    pub force: Option<u32>,
    pub repeat_count: u32,
}

impl Default for Settings {
    /// One repetition, no speed or force.
    fn default() -> (s: Settings)
        ensures
            s == (Settings { speed: None, force: None, repeat_count: 1 }),
    {
        Settings { speed: None, force: None, repeat_count: 1 }
    }
}

/// What a machine can be told, and whether it can be asked when a pass is done.
#[derive(Clone, Copy, Debug, PartialEq, Eq, Structural)]
pub struct MachineCaps {
    pub supports_speed: bool,
    pub supports_force: bool,
    pub needs_operator_pass_confirm: bool,
}

/// Why a driver could not encode a pass.
#[derive(Debug)]
pub enum DriverError {
    UnsupportedGeometry,
    Encode(String),
}

/// Why a transport could not move bytes.
#[derive(Debug, Clone)]
pub enum TransportError {
    NotFound,
    Disconnected,
    Timeout,
    WriteZero,
    Io(String),
}

/// A `TransportError` with its message as characters.
pub enum TransportErrorView {
    NotFound,
    Disconnected,
    Timeout,
    WriteZero,
    Io(Seq<char>),
}

impl View for TransportError {
    type V = TransportErrorView;

    open spec fn view(&self) -> TransportErrorView {
        match self {
            TransportError::NotFound => TransportErrorView::NotFound,
            TransportError::Disconnected => TransportErrorView::Disconnected,
            TransportError::Timeout => TransportErrorView::Timeout,
            TransportError::WriteZero => TransportErrorView::WriteZero,
            TransportError::Io(m) => TransportErrorView::Io(m@),
        }
    }
}

impl PartialEq for TransportError {
    fn eq(&self, other: &Self) -> (r: bool) {
        match self {
            TransportError::NotFound => match other {
                TransportError::NotFound => true,
                _ => false,
            },
            TransportError::Disconnected => match other {
                TransportError::Disconnected => true,
                _ => false,
            },
            TransportError::Timeout => match other {
                TransportError::Timeout => true,
                _ => false,
            },
            TransportError::WriteZero => match other {
                TransportError::WriteZero => true,
                _ => false,
            },
            TransportError::Io(a) => match other {
                TransportError::Io(b) => *a == *b,
                _ => false,
            },
        }
    }
}

impl vstd::std_specs::cmp::PartialEqSpecImpl for TransportError {
    open spec fn obeys_eq_spec() -> bool {
        true
    }

    open spec fn eq_spec(&self, other: &Self) -> bool {
        self@ == other@
    }
}

impl PartialEq for DriverError {
    fn eq(&self, other: &Self) -> (r: bool) {
        match self {
            DriverError::UnsupportedGeometry => match other {
                DriverError::UnsupportedGeometry => true,
                _ => false,
            },
            DriverError::Encode(a) => match other {
                DriverError::Encode(b) => {
                    let e = *a == *b;
                    proof {
                        if e {
                            assert(self.view_is(other));
                        }
                    }
                    e
                },
                _ => false,
            },
        }
    }
}

impl DriverError {
    /// Two errors say the same thing.
    pub open spec fn view_is(&self, other: &Self) -> bool {
        match (self, other) {
            (DriverError::UnsupportedGeometry, DriverError::UnsupportedGeometry) => true,
            (DriverError::Encode(a), DriverError::Encode(b)) => a@ == b@,
            _ => false,
        }
    }
}

impl vstd::std_specs::cmp::PartialEqSpecImpl for DriverError {
    open spec fn obeys_eq_spec() -> bool {
        true
    }

    open spec fn eq_spec(&self, other: &Self) -> bool {
        self.view_is(other)
    }
}

/// A transport's answer to a write or a read, with its error as values.
pub open spec fn reply_view(r: Result<usize, TransportError>) -> Result<usize, TransportErrorView> {
    match r {
        Ok(n) => Ok(n),
        Err(e) => Err(e@),
    }
}

/// One write as a transport saw it: the bytes it was handed and what it answered.
pub type WriteRecord = (Seq<u8>, Result<usize, TransportErrorView>);

/// One read as a transport saw it: the room its buffer had, how long it could wait, what it
/// answered, and the buffer as the read left it.
pub type ReadRecord = (nat, Duration, Result<usize, TransportErrorView>, Seq<u8>);

/// Answers, each with its error as values.
pub open spec fn replies_view(s: Seq<Result<usize, TransportError>>) -> Seq<Result<usize, TransportErrorView>> {
    s.map_values(|a: Result<usize, TransportError>| reply_view(a))
}

/// An answer given to a write of `len` bytes: a count never more than `len`.
pub open spec fn clamped(a: Result<usize, TransportErrorView>, len: nat) -> Result<usize, TransportErrorView> {
    match a {
        Ok(n) => Ok(
            if n <= len {
                n
            } else {
                len as usize
            },
        ),
        Err(e) => Err(e),
    }
}

/// The wire to one machine. `delivered` is every byte the transport has accepted, in order;
/// a successful write accepts a prefix of what it was handed and says how long. `writes` and
/// `read_log` are every write and every read it was asked for, in order, with what each was
/// given and what it answered. `promised` are answers it has promised to its next writes, in
/// order, each given up to what the write is handed; once they are given, it takes every write
/// whole if `takes_the_rest` says so, and nothing is known of its answers otherwise.
pub trait Transport {
    spec fn delivered(&self) -> Seq<u8>;

    spec fn writes(&self) -> Seq<WriteRecord>;

    spec fn read_log(&self) -> Seq<ReadRecord>;

    spec fn promised(&self) -> Seq<Result<usize, TransportErrorView>>;

    spec fn takes_the_rest(&self) -> bool;

    fn write(&mut self, bytes: &[u8]) -> (r: Result<usize, TransportError>)
        ensures
            match r {
                Ok(n) => n <= bytes@.len() && final(self).delivered() == old(self).delivered()
                    + bytes@.take(n as int),
                Err(_) => final(self).delivered() == old(self).delivered(),
            },
            final(self).writes() == old(self).writes().push((bytes@, reply_view(r))),
            final(self).read_log() == old(self).read_log(),
            old(self).promised().len() > 0 ==> reply_view(r) == clamped(old(self).promised()[0], bytes@.len())
                && final(self).promised() == old(self).promised().drop_first(),
            old(self).promised().len() == 0 ==> final(self).promised().len() == 0 && (old(self).takes_the_rest()
                ==> r == Ok::<usize, TransportError>(bytes@.len() as usize)),
            final(self).takes_the_rest() == old(self).takes_the_rest(),
    ;

    fn read(&mut self, buf: &mut [u8], timeout: Duration) -> (r: Result<usize, TransportError>)
        ensures
            final(buf)@.len() == old(buf)@.len(),
            r matches Ok(n) ==> n <= old(buf)@.len(),
            final(self).delivered() == old(self).delivered(),
            final(self).writes() == old(self).writes(),
            final(self).read_log() == old(self).read_log().push(
                (old(buf)@.len(), timeout, reply_view(r), final(buf)@),
            ),
            final(self).promised() == old(self).promised(),
            final(self).takes_the_rest() == old(self).takes_the_rest(),
    ;
}

/// What one write's answer means for handing over `len` bytes, `pos` of them already taken.
pub enum WriteStep {
    /// Every byte has been taken.
    Finished,
    /// Go on with the bytes from this offset.
    Next(usize),
    /// Stop with this error.
    Failed(TransportError),
}

/// A `WriteStep` with its error as values.
pub enum WriteStepView {
    Finished,
    Next(int),
    Failed(TransportErrorView),
}

impl View for WriteStep {
    type V = WriteStepView;

    open spec fn view(&self) -> WriteStepView {
        match self {
            WriteStep::Finished => WriteStepView::Finished,
            WriteStep::Next(p) => WriteStepView::Next(*p as int),
            WriteStep::Failed(e) => WriteStepView::Failed(e@),
        }
    }
}

/// The step a write's answer makes from offset `pos` of `len` bytes: taking nothing is
/// `WriteZero`, a failure is that failure, and taking `n` bytes moves on to `pos + n`, which
/// finishes at the end.
pub open spec fn step_after(pos: int, len: int, reply: Result<usize, TransportErrorView>) -> WriteStepView {
    match reply {
        Ok(n) => if n == 0 {
            WriteStepView::Failed(TransportErrorView::WriteZero)
        } else if pos + n >= len {
            WriteStepView::Finished
        } else {
            WriteStepView::Next(pos + n)
        },
        Err(e) => WriteStepView::Failed(e),
    }
}

/// Decides what a write's answer means, `pos` of `len` bytes having been taken before it.
pub fn write_step(pos: usize, len: usize, reply: Result<usize, TransportError>) -> (r: WriteStep)
    requires
        pos < len,
    ensures
        r@ == step_after(pos as int, len as int, reply_view(reply)),
{
    match reply {
        Ok(n) => if n == 0 {
            WriteStep::Failed(TransportError::WriteZero)
        } else if n >= len - pos {
            WriteStep::Finished
        } else {
            WriteStep::Next(pos + n)
        },
        Err(e) => WriteStep::Failed(e),
    }
}

/// The offset a write-all of `bytes` has reached after the writes in `log`, if they are the
/// writes it makes: each is handed the bytes from the offset the ones before it reached, that
/// offset short of the end, and each took at least one byte.
pub open spec fn reached(bytes: Seq<u8>, log: Seq<WriteRecord>) -> Option<int>
    decreases log.len(),
{
    if log.len() == 0 {
        Some(0)
    } else {
        match reached(bytes, log.drop_last()) {
            Some(pos) => if pos < bytes.len() && log.last().0 == bytes.skip(pos) {
                match step_after(pos, bytes.len() as int, log.last().1) {
                    WriteStepView::Next(p) => Some(p),
                    _ => None,
                }
            } else {
                None
            },
            None => None,
        }
    }
}

/// What a write-all of `bytes` answers when `log` is every write it made, if `log` is the
/// writes it makes: no write at all and success for no bytes; otherwise the writes before the
/// last reach an offset short of the end, the last is handed the bytes from there, and its
/// answer finishes the bytes or fails them.
pub open spec fn write_all_outcome(bytes: Seq<u8>, log: Seq<WriteRecord>) -> Option<Result<(), TransportErrorView>> {
    if log.len() == 0 {
        if bytes.len() == 0 {
            Some(Ok(()))
        } else {
            None
        }
    } else {
        match reached(bytes, log.drop_last()) {
            Some(pos) => if pos < bytes.len() && log.last().0 == bytes.skip(pos) {
                match step_after(pos, bytes.len() as int, log.last().1) {
                    WriteStepView::Finished => Some(Ok(())),
                    WriteStepView::Failed(e) => Some(Err(e)),
                    WriteStepView::Next(_) => None,
                }
            } else {
                None
            },
            None => None,
        }
    }
}

/// What a write-all of `bytes`, from offset `pos` on, comes to against a transport that has
/// promised `answers` and then takes the rest whole or not: its outcome and how many of the
/// answers it used; nothing where an answer that was not promised decides.
pub open spec fn scripted_outcome(
    bytes: Seq<u8>,
    pos: int,
    answers: Seq<Result<usize, TransportErrorView>>,
    rest: bool,
) -> Option<(Result<(), TransportErrorView>, nat)>
    decreases answers.len(),
{
    if pos >= bytes.len() {
        Some((Ok(()), 0))
    } else if answers.len() == 0 {
        if rest {
            Some((Ok(()), 0))
        } else {
            None
        }
    } else {
        match step_after(pos, bytes.len() as int, clamped(answers[0], (bytes.len() - pos) as nat)) {
            WriteStepView::Finished => Some((Ok(()), 1)),
            WriteStepView::Failed(e) => Some((Err(e), 1)),
            WriteStepView::Next(p) => match scripted_outcome(bytes, p, answers.drop_first(), rest) {
                Some((o, k)) => Some((o, k + 1)),
                None => None,
            },
        }
    }
}

/// A write-all's answer, with its error as values.
pub open spec fn unit_outcome(r: Result<(), TransportError>) -> Result<(), TransportErrorView> {
    match r {
        Ok(()) => Ok(()),
        Err(e) => Err(e@),
    }
}

/// Hands all of `bytes` to the transport, a write at a time, each write handed the bytes not
/// yet taken: `Ok` once every byte has been accepted, `WriteZero` if a write accepts nothing,
/// and the transport's own error otherwise; no write follows either failure.
pub fn write_all<T: Transport + ?Sized>(t: &mut T, bytes: &[u8]) -> (r: Result<(), TransportError>)
    ensures
        r is Ok ==> final(t).delivered() == old(t).delivered() + bytes@,
        r is Err ==> exists|k: int|
            0 <= k < bytes@.len() && final(t).delivered() == old(t).delivered() + bytes@.take(k),
        old(t).writes().len() <= final(t).writes().len(),
        final(t).writes().take(old(t).writes().len() as int) == old(t).writes(),
        write_all_outcome(bytes@, final(t).writes().skip(old(t).writes().len() as int)) == Some(
            unit_outcome(r),
        ),
        final(t).read_log() == old(t).read_log(),
        final(t).takes_the_rest() == old(t).takes_the_rest(),
        scripted_outcome(bytes@, 0, old(t).promised(), old(t).takes_the_rest()) matches Some((o, k))
            ==> unit_outcome(r) == o && final(t).promised() == old(t).promised().skip(k as int),
{
    let ghost before = t.writes();
    let ghost p0 = t.promised();
    let ghost rest_whole = t.takes_the_rest();
    if bytes.len() == 0 {
        assert(p0.skip(0) =~= p0);
        assert(t.writes().skip(before.len() as int) =~= Seq::<WriteRecord>::empty());
        assert(t.writes().take(before.len() as int) =~= before);
        return Ok(());
    }
    let mut pos: usize = 0;
    let ghost mut log: Seq<WriteRecord> = Seq::empty();
    let ghost mut used: nat = 0;
    assert(before + log =~= before);
    assert(p0.skip(0) =~= p0);
    loop
        invariant
            pos < bytes@.len(),
            t.delivered() == old(t).delivered() + bytes@.take(pos as int),
            before == old(t).writes(),
            t.writes() == before + log,
            reached(bytes@, log) == Some(pos as int),
            t.read_log() == old(t).read_log(),
            p0 == old(t).promised(),
            rest_whole == old(t).takes_the_rest(),
            t.takes_the_rest() == rest_whole,
            used <= p0.len(),
            t.promised() == p0.skip(used as int),
            scripted_outcome(bytes@, 0, p0, rest_whole) == match scripted_outcome(
                bytes@,
                pos as int,
                t.promised(),
                rest_whole,
            ) {
                Some((o, k)) => Some((o, k + used)),
                None => None,
            },
        decreases bytes@.len() - pos,
    {
        let rest = &bytes[pos..bytes.len()];
        assert(rest@ =~= bytes@.skip(pos as int));
        let ghost promised_before = t.promised();
        let reply = t.write(rest);
        let ghost entry = (rest@, reply_view(reply));
        proof {
            if promised_before.len() > 0 {
                assert(p0.skip(used + 1int) =~= promised_before.drop_first());
            }
        }
        proof {
            assert(t.writes() =~= before + log.push(entry));
            assert(log.push(entry).drop_last() =~= log);
            assert((before + log.push(entry)).skip(before.len() as int) =~= log.push(entry));
            assert((before + log.push(entry)).take(before.len() as int) =~= before);
            match reply {
                Ok(n) => {
                    assert(bytes@.take(pos as int) + rest@.take(n as int) =~= bytes@.take(pos + n));
                },
                Err(_) => {},
            }
        }
        match write_step(pos, bytes.len(), reply) {
            WriteStep::Finished => {
                assert(bytes@.take(bytes@.len() as int) =~= bytes@);
                return Ok(());
            },
            WriteStep::Next(p) => {
                proof {
                    log = log.push(entry);
                    if promised_before.len() > 0 {
                        used = used + 1;
                    }
                }
                pos = p;
            },
            WriteStep::Failed(e) => {
                return Err(e);
            },
        }
    }
}

/// Whatever physically moves bytes to a machine — a serial port, a USB endpoint — with nothing
/// promised of it: `send` answers how many of `bytes` it took, `receive` the bytes it read, at
/// most `max` of them, within `timeout`.
pub trait Wire {
    fn send(&mut self, bytes: &[u8]) -> Result<usize, TransportError>;

    fn receive(&mut self, max: usize, timeout: Duration) -> Result<Vec<u8>, TransportError>;
}

/// A transport over a wire. Its record of delivered bytes is what the wire said it took, no
/// more than it was handed; a read hands back no more than the buffer holds.
pub struct WireTransport<W: Wire> {
    pub wire: W,
    /// Every byte the wire has taken, in order.
    pub sent: Ghost<Seq<u8>>,
    /// Every write asked of the transport, with what it was handed and what it answered.
    pub write_log: Ghost<Seq<WriteRecord>>,
    /// Every read asked of the transport, with what it was given and what it answered.
    pub reads_seen: Ghost<Seq<ReadRecord>>,
}

impl<W: Wire> WireTransport<W> {
    /// A transport over `wire`, with nothing delivered yet.
    pub fn new(wire: W) -> (t: WireTransport<W>)
        ensures
            t.wire == wire,
            t.delivered() == Seq::<u8>::empty(),
            t.writes() == Seq::<WriteRecord>::empty(),
            t.read_log() == Seq::<ReadRecord>::empty(),
    {
        WireTransport {
            wire,
            sent: Ghost(Seq::empty()),
            write_log: Ghost(Seq::empty()),
            reads_seen: Ghost(Seq::empty()),
        }
    }
}

impl<W: Wire> Transport for WireTransport<W> {
    open spec fn delivered(&self) -> Seq<u8> {
        self.sent@
    }

    open spec fn writes(&self) -> Seq<WriteRecord> {
        self.write_log@
    }

    open spec fn read_log(&self) -> Seq<ReadRecord> {
        self.reads_seen@
    }

    /// A wire promises nothing of its answers.
    open spec fn promised(&self) -> Seq<Result<usize, TransportErrorView>> {
        Seq::empty()
    }

    open spec fn takes_the_rest(&self) -> bool {
        false
    }

    fn write(&mut self, bytes: &[u8]) -> (r: Result<usize, TransportError>) {
        let r = taken_by_wire(self.wire.send(bytes), bytes.len());
        self.write_log = Ghost(self.write_log@.push((bytes@, reply_view(r))));
        match r {
            Ok(taken) => {
                self.sent = Ghost(self.sent@ + bytes@.take(taken as int));
                Ok(taken)
            },
            Err(e) => Err(e),
        }
    }

    fn read(&mut self, buf: &mut [u8], timeout: Duration) -> (r: Result<usize, TransportError>)
        ensures
            r is Err ==> final(buf)@ == old(buf)@,
            r matches Ok(n) ==> final(buf)@.skip(n as int) == old(buf)@.skip(n as int),
    {
        let ghost room = buf@.len();
        let r = match self.wire.receive(buf.len(), timeout) {
            Ok(got) => Ok(copy_received(buf, &got)),
            Err(e) => Err(e),
        };
        self.reads_seen = Ghost(self.reads_seen@.push((room, timeout, reply_view(r), buf@)));
        r
    }
}

/// What a write over a wire answers, from what the wire answered when handed `len` bytes: the
/// wire's own failure, or how many bytes it took, never more than it was handed.
pub fn taken_by_wire(sent: Result<usize, TransportError>, len: usize) -> (r: Result<usize, TransportError>)
    ensures
        match sent {
            Ok(n) => r == Ok::<usize, TransportError>(
                if n <= len {
                    n
                } else {
                    len
                },
            ),
            Err(e) => r == Err::<usize, TransportError>(e),
        },
{
    match sent {
        Ok(n) => Ok(
            if n <= len {
                n
            } else {
                len
            },
        ),
        Err(e) => Err(e),
    }
}

/// Hands what a wire read over to `buf`: as many of the bytes as fit, from the start, leaving
/// the rest of `buf` as it was. Says how many were handed over.
pub fn copy_received(buf: &mut [u8], got: &Vec<u8>) -> (n: usize)
    ensures
        n == if got@.len() < old(buf)@.len() {
            got@.len()
        } else {
            old(buf)@.len()
        },
        final(buf)@ == got@.take(n as int) + old(buf)@.skip(n as int),
{
    let n = if got.len() < buf.len() {
        got.len()
    } else {
        buf.len()
    };
    let mut i: usize = 0;
    while i < n
        invariant
            i <= n <= got@.len(),
            n <= buf@.len(),
            buf@.len() == old(buf)@.len(),
            forall|j: int| 0 <= j < i ==> buf@[j] == got@[j],
            forall|j: int| i <= j < buf@.len() ==> buf@[j] == old(buf)@[j],
        decreases n - i,
    {
        buf[i] = got[i];
        i = i + 1;
    }
    assert(buf@ =~= got@.take(n as int) + old(buf)@.skip(n as int));
    n
}

/// A scripted transport: records every byte written, answers writes from `write_results` and
/// reads from `reads` in order, then accepts every write whole and times out every read.
pub struct MockTransport {
    pub written: Vec<u8>,
    pub reads: VecDeque<Result<Vec<u8>, TransportError>>,
    pub write_results: VecDeque<Result<usize, TransportError>>,
    /// Every write asked of it, with what it was handed and what it answered.
    pub write_log: Ghost<Seq<WriteRecord>>,
    /// Every read asked of it, with what it was given and what it answered.
    pub reads_seen: Ghost<Seq<ReadRecord>>,
}

impl Default for MockTransport {
    /// Nothing written, nothing scripted.
    fn default() -> (t: MockTransport)
        ensures
            t.written@.len() == 0,
            t.reads@.len() == 0,
            t.write_results@.len() == 0,
            t.write_log@.len() == 0,
            t.reads_seen@.len() == 0,
    {
        MockTransport {
            written: Vec::new(),
            reads: VecDeque::new(),
            write_results: VecDeque::new(),
            write_log: Ghost(Seq::empty()),
            reads_seen: Ghost(Seq::empty()),
        }
    }
}

impl Transport for MockTransport {
    open spec fn delivered(&self) -> Seq<u8> {
        self.written@
    }

    open spec fn writes(&self) -> Seq<WriteRecord> {
        self.write_log@
    }

    open spec fn read_log(&self) -> Seq<ReadRecord> {
        self.reads_seen@
    }

    /// The scripted answers to writes.
    open spec fn promised(&self) -> Seq<Result<usize, TransportErrorView>> {
        replies_view(self.write_results@)
    }

    /// Once the script runs out, every write is taken whole.
    open spec fn takes_the_rest(&self) -> bool {
        true
    }

    fn write(&mut self, b: &[u8]) -> (r: Result<usize, TransportError>)
        ensures
            if old(self).write_results@.len() == 0 {
                r == Ok::<usize, TransportError>(b@.len() as usize) && final(self).write_results@
                    == old(self).write_results@
            } else {
                final(self).write_results@ == old(self).write_results@.drop_first()
                    && match old(self).write_results@[0] {
                    Ok(n) => r == Ok::<usize, TransportError>(
                        if n <= b@.len() {
                            n
                        } else {
                            b@.len() as usize
                        },
                    ),
                    Err(e) => r == Err::<usize, TransportError>(e),
                }
            },
            final(self).reads@ == old(self).reads@,
    {
        let r = match self.write_results.pop_front() {
            Some(result) => match result {
                Ok(n) => {
                    let clamped = if n < b.len() { n } else { b.len() };
                    let part = &b[0..clamped];
                    self.written.extend_from_slice(part);
                    assert(b@.take(clamped as int) =~= part@);
                    Ok(clamped)
                },
                Err(e) => Err(e),
            },
            None => {
                self.written.extend_from_slice(b);
                assert(b@.take(b@.len() as int) =~= b@);
                Ok(b.len())
            },
        };
        self.write_log = Ghost(self.write_log@.push((b@, reply_view(r))));
        r
    }

    fn read(&mut self, buf: &mut [u8], _timeout: Duration) -> (r: Result<usize, TransportError>)
        ensures
            final(self).write_results@ == old(self).write_results@,
            if old(self).reads@.len() == 0 {
                r == Err::<usize, TransportError>(TransportError::Timeout) && final(self).reads@
                    == old(self).reads@ && final(buf)@ == old(buf)@
            } else {
                final(self).reads@ == old(self).reads@.drop_first() && match old(self).reads@[0] {
                    Ok(data) => {
                        let n = if data@.len() <= old(buf)@.len() {
                            data@.len()
                        } else {
                            old(buf)@.len()
                        };
                        &&& r == Ok::<usize, TransportError>(n as usize)
                        &&& final(buf)@ == data@.take(n as int) + old(buf)@.skip(n as int)
                    },
                    Err(e) => r == Err::<usize, TransportError>(e) && final(buf)@ == old(buf)@,
                }
            },
    {
        let ghost room = buf@.len();
        let r = match self.reads.pop_front() {
            Some(result) => match result {
                Ok(data) => {
                    let n = if data.len() < buf.len() { data.len() } else { buf.len() };
                    let mut i: usize = 0;
                    while i < n
                        invariant
                            i <= n <= data@.len(),
                            n <= buf@.len(),
                            buf@.len() == old(buf)@.len(),
                            forall|j: int| 0 <= j < i ==> buf@[j] == data@[j],
                            forall|j: int| i <= j < buf@.len() ==> buf@[j] == old(buf)@[j],
                        decreases n - i,
                    {
                        buf[i] = data[i];
                        i = i + 1;
                    }
                    assert(buf@ =~= data@.take(n as int) + old(buf)@.skip(n as int));
                    Ok(n)
                },
                Err(e) => Err(e),
            },
            None => Err(TransportError::Timeout),
        };
        self.reads_seen = Ghost(self.reads_seen@.push((room, _timeout, reply_view(r), buf@)));
        r
    }
}

/// How a device is reached.
#[derive(Clone, Debug)]
pub enum TransportKind {
    /// A USB device, by its locator (`sn:<serial>` or `bus:address`).
    Usb { locator: String },
    Serial { path: String, baud: u32 },
}

/// One connectable device.
#[derive(Clone, Debug)]
pub struct DeviceInfo {
    pub instance_id: String,
    pub machine_id: String,
    pub transport: TransportKind,
    /// True when nothing about the device proves it is a cutter, so the operator must confirm
    /// it and a connect probes it first.
    pub candidate: bool,
}

/// A `TransportKind` as characters.
pub enum TransportKindView {
    Usb { locator: Seq<char> },
    Serial { path: Seq<char>, baud: u32 },
}

/// A `DeviceInfo` as characters.
pub struct DeviceInfoView {
    pub instance_id: Seq<char>,
    pub machine_id: Seq<char>,
    pub transport: TransportKindView,
    pub candidate: bool,
}

impl View for TransportKind {
    type V = TransportKindView;

    open spec fn view(&self) -> TransportKindView {
        match self {
            TransportKind::Usb { locator } => TransportKindView::Usb { locator: locator@ },
            TransportKind::Serial { path, baud } => TransportKindView::Serial {
                path: path@,
                baud: *baud,
            },
        }
    }
}

impl View for DeviceInfo {
    type V = DeviceInfoView;

    open spec fn view(&self) -> DeviceInfoView {
        DeviceInfoView {
            instance_id: self.instance_id@,
            machine_id: self.machine_id@,
            transport: self.transport@,
            candidate: self.candidate,
        }
    }
}

impl PartialEq for TransportKind {
    fn eq(&self, other: &Self) -> (r: bool) {
        match self {
            TransportKind::Usb { locator: a } => match other {
                TransportKind::Usb { locator: b } => *a == *b,
                _ => false,
            },
            TransportKind::Serial { path: a, baud: x } => match other {
                TransportKind::Serial { path: b, baud: y } => *x == *y && *a == *b,
                _ => false,
            },
        }
    }
}

impl vstd::std_specs::cmp::PartialEqSpecImpl for TransportKind {
    open spec fn obeys_eq_spec() -> bool {
        true
    }

    open spec fn eq_spec(&self, other: &Self) -> bool {
        self@ == other@
    }
}

} // verus!
