use ymodem::control::ControlByte;
use ymodem::sender::{Action, Event, SendState};
use ymodem::{YmodemError, YmodemSender};

const ACK: u8 = 0x06;
const NAK: u8 = 0x15;
const CAN: u8 = 0x18;
const C: u8 = 0x43;

/// What a simulated transport saw during one transfer.
struct Trace {
    writes: Vec<Vec<u8>>,
    reads: usize,
    outcome: Result<(), YmodemError>,
}

/// Runs a transfer against a transport that answers with `replies`, one per
/// read, and times out once they are used up.
fn drive(sender: &YmodemSender, replies: &[u8]) -> Trace {
    let mut writes = Vec::new();
    let mut reads = 0usize;
    let (mut state, mut action) = sender.begin();
    loop {
        match action {
            Action::Finish(outcome) => return Trace { writes, reads, outcome },
            Action::Send(bytes) => writes.push(bytes),
            Action::Read => {}
        }
        let event = match replies.get(reads) {
            Some(&b) => Event::Byte(b),
            None => Event::TimedOut,
        };
        reads += 1;
        let next = sender.step(state, event);
        state = next.0;
        action = next.1;
    }
}

fn zero_frame(seq: u8, payload: &[u8]) -> Vec<u8> {
    let mut block = payload.to_vec();
    block.resize(128, 0);
    let crc = ymodem::crc::crc16_ccitt(&block);
    let mut f = vec![0x01, seq, !seq];
    f.extend_from_slice(&block);
    f.push((crc >> 8) as u8);
    f.push((crc & 0xff) as u8);
    f
}

#[test]
fn end_to_end_hello() {
    let data = b"abc";
    let s = YmodemSender::new("hello.txt", data);
    let t = drive(&s, &[C, ACK, C, ACK, ACK, C, ACK]);
    assert_eq!(t.outcome, Ok(()));
    assert_eq!(t.writes.len(), 4);
    assert_eq!(t.reads, 7);
    let header = &t.writes[0];
    assert_eq!(header.len(), 133);
    assert_eq!(&header[..3], &[0x01, 0x00, 0xFF]);
    assert_eq!(&header[3..3 + 12], b"hello.txt\x003 ");
    assert_eq!(header[15], 0);
    assert!(header[16..131].iter().all(|&b| b == 0));
    let data_frame = &t.writes[1];
    assert_eq!(data_frame.len(), 133);
    assert_eq!(&data_frame[..3], &[0x01, 1, 254]);
    assert_eq!(&data_frame[3..6], b"abc");
    assert!(data_frame[6..131].iter().all(|&b| b == 0));
    assert_eq!(data_frame, &zero_frame(1, b"abc"));
    assert_eq!(t.writes[2], vec![0x04]);
    let end = &t.writes[3];
    assert_eq!(end.len(), 133);
    assert_eq!(&end[..3], &[0x01, 0x00, 0xFF]);
    assert!(end[3..133].iter().all(|&b| b == 0));
}

#[test]
fn nak_twice_then_ack_resends_identical_frame() {
    let s = YmodemSender::new("f", b"xyz");
    let t = drive(&s, &[C, NAK, NAK, ACK, C, ACK, ACK, C, ACK]);
    assert_eq!(t.outcome, Ok(()));
    assert_eq!(t.writes.len(), 6);
    assert_eq!(t.writes[0], t.writes[1]);
    assert_eq!(t.writes[1], t.writes[2]);
    assert_eq!(t.writes[0], s.create_file_header());
}

#[test]
fn nak_on_data_frame_resends_it() {
    let s = YmodemSender::new("f", b"xyz");
    let t = drive(&s, &[C, ACK, C, NAK, NAK, ACK, ACK, C, ACK]);
    assert_eq!(t.outcome, Ok(()));
    assert_eq!(t.writes.len(), 6);
    assert_eq!(t.writes[1], zero_frame(1, b"xyz"));
    assert_eq!(t.writes[2], t.writes[1]);
    assert_eq!(t.writes[3], t.writes[1]);
}

#[test]
fn cancel_aborts_after_one_write() {
    let s = YmodemSender::new("f", b"xyz");
    let t = drive(&s, &[C, CAN, ACK, C, ACK]);
    assert_eq!(t.outcome, Err(YmodemError::InvalidResponse));
    assert_eq!(t.writes.len(), 1);
    assert_eq!(t.reads, 2);
}

#[test]
fn cancel_on_data_frame_stops_the_transfer() {
    let s = YmodemSender::new("f", &[7u8; 300]);
    let t = drive(&s, &[C, ACK, C, ACK, CAN, ACK, ACK]);
    assert_eq!(t.outcome, Err(YmodemError::InvalidResponse));
    assert_eq!(t.writes.len(), 3);
}

#[test]
fn bytes_before_ready_are_skipped() {
    let s = YmodemSender::new("f", b"");
    let t = drive(&s, &[0x00, 0x7f, ACK, C, ACK, C, ACK, C, ACK]);
    assert_eq!(t.outcome, Ok(()));
    assert_eq!(t.writes.len(), 3);
    assert_eq!(t.writes[1], vec![0x04]);
}

#[test]
fn header_gate_mismatch_is_invalid_response() {
    let s = YmodemSender::new("f", b"abc");
    let t = drive(&s, &[C, ACK, ACK]);
    assert_eq!(t.outcome, Err(YmodemError::InvalidResponse));
    assert_eq!(t.writes.len(), 1);
}

#[test]
fn eot_gate_mismatch_is_invalid_response() {
    let s = YmodemSender::new("f", b"abc");
    let t = drive(&s, &[C, ACK, C, ACK, ACK, NAK]);
    assert_eq!(t.outcome, Err(YmodemError::InvalidResponse));
    assert_eq!(t.writes.len(), 3);
}

#[test]
fn unexpected_ack_byte_is_invalid_response() {
    let s = YmodemSender::new("f", b"abc");
    let t = drive(&s, &[C, 0x42]);
    assert_eq!(t.outcome, Err(YmodemError::InvalidResponse));
}

#[test]
fn silence_is_timeout() {
    let s = YmodemSender::new("f", b"abc");
    let t = drive(&s, &[C, ACK, C]);
    assert_eq!(t.outcome, Err(YmodemError::Timeout));
    assert_eq!(t.writes.len(), 2);
    let t = drive(&s, &[]);
    assert_eq!(t.outcome, Err(YmodemError::Timeout));
    assert!(t.writes.is_empty());
}

#[test]
fn write_failure_is_send_failed() {
    let s = YmodemSender::new("f", b"abc");
    let (st, _) = s.begin();
    let (st, a) = s.step(st, Event::Byte(C));
    assert!(matches!(a, Action::Send(_)));
    let (st, a) = s.step(st, Event::WriteFailed);
    assert_eq!(st, SendState::Failed(YmodemError::SendFailed));
    assert!(matches!(a, Action::Finish(Err(YmodemError::SendFailed))));
    let (st2, a) = s.step(st, Event::Byte(ACK));
    assert_eq!(st2, st);
    assert!(matches!(a, Action::Finish(Err(YmodemError::SendFailed))));
}

#[test]
fn frames_in_order_for_multi_block_file() {
    let data: Vec<u8> = (0..300u32).map(|i| (i % 251) as u8).collect();
    let s = YmodemSender::new("big.bin", &data);
    let t = drive(&s, &[C, ACK, C, ACK, ACK, ACK, ACK, C, ACK]);
    assert_eq!(t.outcome, Ok(()));
    assert_eq!(t.writes.len(), 6);
    assert_eq!(t.writes[1], zero_frame(1, &data[0..128]));
    assert_eq!(t.writes[2], zero_frame(2, &data[128..256]));
    assert_eq!(t.writes[3], zero_frame(3, &data[256..300]));
    assert_eq!(t.writes[4], vec![0x04]);
    assert_eq!(t.writes[5], zero_frame(0, &[]));
}

#[test]
fn sequence_numbers_wrap_at_256() {
    let data = vec![1u8; 128 * 256 + 1];
    let s = YmodemSender::new("wrap", &data);
    let mut replies = vec![C, ACK, C];
    replies.extend(std::iter::repeat(ACK).take(257));
    replies.extend([ACK, C, ACK]);
    let t = drive(&s, &replies);
    assert_eq!(t.outcome, Ok(()));
    assert_eq!(t.writes.len(), 1 + 257 + 2);
    assert_eq!(t.writes[255][1], 255);
    assert_eq!(t.writes[256][1], 0);
    assert_eq!(t.writes[256][2], 255);
    assert_eq!(t.writes[257][1], 1);
}

#[test]
fn long_name_does_not_fit() {
    let name = "n".repeat(125);
    let s = YmodemSender::new(&name, b"abc");
    assert!(s.header_fits());
    let name = "n".repeat(126);
    let s = YmodemSender::new(&name, b"abc");
    assert!(!s.header_fits());
}

#[test]
fn control_bytes_map_both_ways() {
    assert_eq!(ControlByte::from_byte(0x43), Some(ControlByte::C));
    assert_eq!(ControlByte::from_byte(0x02), Some(ControlByte::Stx));
    assert_eq!(ControlByte::from_byte(0x05), None);
    assert_eq!(ControlByte::Eot.as_byte(), 0x04);
    assert_eq!(ControlByte::Can.as_byte(), 0x18);
}

#[test]
fn error_messages() {
    assert_eq!(YmodemError::InvalidResponse.message(), "Invalid response");
    assert_eq!(YmodemError::Timeout.message(), "Timeout");
    assert_eq!(YmodemError::RequestReSend.message(), "Request re-send");
    assert_eq!(YmodemError::SendFailed.message(), "Send failed");
}
