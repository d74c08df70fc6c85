use cuthulhu::session::{poll_status, PollReply};
use cuthulhu::session::judge_ready;
use cuthulhu::transport::{copy_received, taken_by_wire, write_all, Transport, TransportError, Wire, WireTransport};
use std::time::Duration;

/// A wire that takes at most `per_send` bytes a time, or claims `overclaim` more than it was
/// handed, and answers every read with `reply`.
struct ScriptedWire {
    taken: Vec<u8>,
    per_send: usize,
    overclaim: usize,
    reply: Vec<u8>,
    asked: Vec<usize>,
}

impl ScriptedWire {
    fn new(per_send: usize, reply: &[u8]) -> ScriptedWire {
        ScriptedWire { taken: Vec::new(), per_send, overclaim: 0, reply: reply.to_vec(), asked: Vec::new() }
    }
}

impl Wire for ScriptedWire {
    fn send(&mut self, bytes: &[u8]) -> Result<usize, TransportError> {
        let n = bytes.len().min(self.per_send);
        self.taken.extend_from_slice(&bytes[..n]);
        Ok(n + self.overclaim)
    }

    fn receive(&mut self, max: usize, _timeout: Duration) -> Result<Vec<u8>, TransportError> {
        self.asked.push(max);
        Ok(self.reply.clone())
    }
}

#[test]
fn a_wire_that_takes_a_few_bytes_at_a_time_still_gets_the_whole_message() {
    let mut t = WireTransport::new(ScriptedWire::new(3, b""));
    write_all(&mut t, b"IN;PU0,0;").unwrap();
    assert_eq!(t.wire.taken, b"IN;PU0,0;".to_vec());
}

#[test]
fn a_wire_that_claims_more_than_it_was_handed_is_held_to_what_it_was_handed() {
    let mut wire = ScriptedWire::new(usize::MAX, b"");
    wire.overclaim = 5;
    let mut t = WireTransport::new(wire);
    assert_eq!(t.write(b"AB"), Ok(2));
}

#[test]
fn a_read_hands_back_no_more_than_the_buffer_holds() {
    let mut t = WireTransport::new(ScriptedWire::new(usize::MAX, b"0123456789"));
    let mut buf = [0u8; 4];
    assert_eq!(t.read(&mut buf, Duration::from_millis(1)), Ok(4));
    assert_eq!(&buf, b"0123");
    assert_eq!(t.wire.asked, vec![4]);
}

#[test]
fn a_machine_answering_ready_over_a_wire_is_ready() {
    let mut t = WireTransport::new(ScriptedWire::new(usize::MAX, b"0\x03"));
    assert!(matches!(poll_status(&mut t, &[0x05], Duration::from_millis(1)), Ok(PollReply::Ready)));
    assert_eq!(t.wire.taken, vec![0x05]);
}

#[test]
fn a_wire_write_answers_what_the_wire_took_no_more_than_it_was_handed() {
    assert_eq!(taken_by_wire(Ok(3), 5), Ok(3));
    assert_eq!(taken_by_wire(Ok(9), 5), Ok(5));
    assert_eq!(taken_by_wire(Err(TransportError::Timeout), 5), Err(TransportError::Timeout));
}

#[test]
fn what_a_wire_read_is_copied_from_the_start_and_the_rest_is_left() {
    let mut buf = [9u8; 5];
    assert_eq!(copy_received(&mut buf, &b"ab".to_vec()), 2);
    assert_eq!(&buf, b"ab\x09\x09\x09");
    let mut small = [0u8; 2];
    assert_eq!(copy_received(&mut small, &b"xyz".to_vec()), 2);
    assert_eq!(&small, b"xy");
}

#[test]
fn only_a_ready_byte_confirms_a_stop() {
    assert!(judge_ready(&Ok(2), b'0'));
    assert!(!judge_ready(&Ok(2), b'1'));
    assert!(!judge_ready(&Ok(0), b'0'));
    assert!(!judge_ready(&Err(TransportError::Timeout), b'0'));
}
