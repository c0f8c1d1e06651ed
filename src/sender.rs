use vstd::prelude::*;
use vstd::slice::slice_subrange;
use vstd::utf8::encode_utf8;

use crate::control::{classify, response_of, ControlByte, Response};
use crate::frame::{
    block_count, block_seq, build_frame, chunk_end, chunk_of, data_frame, decimal_digits,
    file_info, header_frame, joined_payloads, lemma_round_trip, pad_block, pad_to_block,
    PACKET_SIZE,
};

verus! {

/// Why a transfer failed.
#[derive(Clone, Copy, Debug, PartialEq, Eq, Structural)]
pub enum YmodemError {
    /// A byte other than the one the protocol required was read.
    InvalidResponse,
    /// No response arrived in time.
    Timeout,
    /// The peer asked for a frame again; consumed by the retry loop, never the
    /// outcome of a transfer.
    RequestReSend,
    /// The transport failed to write.
    SendFailed,
}

impl YmodemError {
    /// A short human-readable description.
    pub fn message(&self) -> (r: &'static str)
        ensures
            r@ == match *self {
                YmodemError::InvalidResponse => "Invalid response"@,
                YmodemError::Timeout => "Timeout"@,
                YmodemError::RequestReSend => "Request re-send"@,
                YmodemError::SendFailed => "Send failed"@,
            },
    {
        match self {
            YmodemError::InvalidResponse => "Invalid response",
            YmodemError::Timeout => "Timeout",
            YmodemError::RequestReSend => "Request re-send",
            YmodemError::SendFailed => "Send failed",
        }
    }
}

/// Where a transfer stands between two transport operations.
#[derive(Clone, Copy, Debug, PartialEq, Eq, Structural)]
pub enum SendState {
    /// Waiting for the peer's `'C'`; other bytes are skipped.
    AwaitReady,
    /// Packet `packet` was written; waiting for its ACK.
    AwaitAck { packet: usize },
    /// Packet `packet` (the header or the EOT) was acknowledged; waiting for `'C'`.
    AwaitGate { packet: usize },
    /// The transfer completed.
    Done,
    /// The transfer failed.
    Failed(YmodemError),
}

/// What the transport reports back after an action.
#[derive(Clone, Copy, Debug, PartialEq, Eq, Structural)]
pub enum Event {
    /// One byte was read.
    Byte(u8),
    /// No byte arrived within the deadline.
    TimedOut,
    /// Writing failed.
    WriteFailed,
}

/// What the transport must do next.
#[derive(Debug)]
pub enum Action {
    /// Read one byte and report it.
    Read,
    /// Write these bytes, then read one byte and report it.
    Send(Vec<u8>),
    /// The transfer is over, with this outcome.
    Finish(Result<(), YmodemError>),
}

impl SendState {
    /// The transfer is over.
    pub open spec fn is_terminal(self) -> bool {
        self is Done || self is Failed
    }

    /// The outcome of a terminal state.
    pub open spec fn outcome(self) -> Result<(), YmodemError> {
        match self {
            SendState::Failed(e) => Err(e),
            _ => Ok(()),
        }
    }
}

/// `a` is the action that leads into `next`, writing `write` if that is some.
pub open spec fn action_is(a: Action, next: SendState, write: Option<Seq<u8>>) -> bool {
    match a {
        Action::Read => write is None && !next.is_terminal(),
        Action::Send(b) => write == Some(b@) && !next.is_terminal(),
        Action::Finish(res) => write is None && next.is_terminal() && res == next.outcome(),
    }
}

/// Sends one in-memory file to a receiver.
pub struct YmodemSender<'a> {
    fname: String,
    fdata: &'a [u8],
}

/// Number of data frames for `len` bytes.
fn block_count_of(len: usize) -> (r: usize)
    ensures
        r == block_count(len as nat),
{
    let r = if len % 128 == 0 { len / 128 } else { len / 128 + 1 };
    assert(r == (len + 127) / 128) by (nonlinear_arith)
        requires
            len % 128 == 0 ==> r == len / 128,
            len % 128 != 0 ==> r == len / 128 + 1,
    ;
    r
}

impl<'a> YmodemSender<'a> {
    /// The file name, as bytes.
    pub closed spec fn name_bytes(&self) -> Seq<u8> {
        encode_utf8(self.fname@)
    }

    /// The file content.
    pub closed spec fn data(&self) -> Seq<u8> {
        self.fdata@
    }

    /// A sender for the file `fdata`, announced under the name `fname`.
    pub fn new(fname: &str, fdata: &'a [u8]) -> (r: Self)
        ensures
            r.name_bytes() == encode_utf8(fname@),
            r.data() == fdata@,
    {
        Self { fname: fname.to_owned(), fdata }
    }

    /// The file's metadata fits in the header frame's payload.
    pub open spec fn header_fits_spec(&self) -> bool {
        file_info(self.name_bytes(), self.data().len()).len() <= PACKET_SIZE
    }

    /// Whether the file's metadata fits in the header frame's payload.
    pub fn header_fits(&self) -> (r: bool)
        ensures
            r == self.header_fits_spec(),
    {
        let name = self.fname.as_str().as_bytes();
        let digits = decimal_digits(self.fdata.len());
        name.len() <= 126 && digits.len() <= 126 - name.len()
    }

    /// The header frame: sequence 0, the file's name and size as payload.
    pub fn create_file_header(&self) -> (r: Vec<u8>)
        requires
            self.header_fits_spec(),
        ensures
            r@ == header_frame(self.name_bytes(), self.data().len()),
            r@.len() == 133,
            r@[0] == 0x01,
            r@[1] == 0x00,
            r@[2] == 0xFF,
    {
        let mut info: Vec<u8> = Vec::new();
        let name = self.fname.as_str().as_bytes();
        let digits = decimal_digits(self.fdata.len());
        for i in 0..name.len()
            invariant
                info@ == name@.subrange(0, i as int),
        {
            info.push(name[i]);
            assert(info@ =~= name@.subrange(0, i + 1));
        }
        info.push(0);
        for i in 0..digits.len()
            invariant
                info@ == name@ + seq![0u8] + digits@.subrange(0, i as int),
                name@.len() + 1 + digits@.len() + 1 <= PACKET_SIZE,
        {
            info.push(digits[i]);
            assert(info@ =~= name@ + seq![0u8] + digits@.subrange(0, i + 1));
        }
        info.push(0x20);
        assert(name@ =~= self.name_bytes());
        assert(info@ =~= file_info(self.name_bytes(), self.data().len()));
        let block = pad_to_block(info.as_slice());
        build_frame(0, &block)
    }

    /// The data frame that carries `chunk` under sequence number `block_number`.
    pub fn create_data_block(chunk: &[u8], block_number: u8) -> (r: Vec<u8>)
        requires
            chunk@.len() <= PACKET_SIZE,
        ensures
            r@ == data_frame(chunk@, block_number),
            r@.len() == 133,
            r@[0] == 0x01,
            r@[1] == block_number,
            r@[2] == 255 - block_number,
    {
        let block = pad_to_block(chunk);
        build_frame(block_number, &block)
    }

    /// Number of data frames the file takes.
    pub open spec fn blocks(&self) -> nat {
        block_count(self.data().len())
    }

    /// Packet `p` of the transfer, in sending order: the header, one data
    /// frame per chunk, the single EOT byte, and the all-zero termination
    /// frame.
    pub open spec fn packet(&self, p: nat) -> Seq<u8> {
        let n = self.blocks();
        if p == 0 {
            header_frame(self.name_bytes(), self.data().len())
        } else if p <= n {
            data_frame(chunk_of(self.data(), (p - 1) as nat), block_seq((p - 1) as nat))
        } else if p == n + 1 {
            seq![ControlByte::Eot.byte()]
        } else {
            data_frame(Seq::new(PACKET_SIZE as nat, |i: int| 0u8), 0)
        }
    }

    /// Builds packet `p` of the transfer.
    fn build_packet(&self, p: usize) -> (r: Vec<u8>)
        requires
            self.header_fits_spec(),
            p <= self.blocks() + 2,
        ensures
            r@ == self.packet(p as nat),
    {
        let len = self.fdata.len();
        let n = block_count_of(len);
        if p == 0 {
            self.create_file_header()
        } else if p <= n {
            let k = p - 1;
            assert(128 * k < len) by (nonlinear_arith)
                requires
                    k < n,
                    n == (len + 127) / 128,
            ;
            let start = 128 * k;
            let end = if len >= 128 && start <= len - 128 { start + 128 } else { len };
            assert(end == chunk_end(len as nat, k as nat));
            let chunk = slice_subrange(self.fdata, start, end);
            Self::create_data_block(chunk, (p % 256) as u8)
        } else if p == n + 1 {
            vec![ControlByte::Eot.as_byte()]
        } else {
            let zeros: Vec<u8> = vec![0u8; PACKET_SIZE];
            assert(pad_block(zeros@) =~= zeros@);
            assert(zeros@ =~= Seq::new(PACKET_SIZE as nat, |i: int| 0u8));
            Self::create_data_block(zeros.as_slice(), 0)
        }
    }

    /// The states a transfer of this file can reach.
    pub open spec fn state_wf(&self, state: SendState) -> bool {
        match state {
            SendState::AwaitAck { packet } => packet <= self.blocks() + 2,
            SendState::AwaitGate { packet } => packet == 0 || packet == self.blocks() + 1,
            _ => true,
        }
    }

    /// The state that follows `state` on `event`, and the bytes to write on
    /// entering it, if any.
    pub open spec fn transition(&self, state: SendState, event: Event) -> (SendState, Option<Seq<u8>>) {
        let n = self.blocks();
        if state.is_terminal() {
            (state, None)
        } else {
            match event {
                Event::TimedOut => (SendState::Failed(YmodemError::Timeout), None),
                Event::WriteFailed => (SendState::Failed(YmodemError::SendFailed), None),
                Event::Byte(b) => match state {
                    SendState::AwaitReady => if b == ControlByte::C.byte() {
                        (SendState::AwaitAck { packet: 0 }, Some(self.packet(0)))
                    } else {
                        (SendState::AwaitReady, None)
                    },
                    SendState::AwaitAck { packet } => match response_of(b) {
                        Response::Acknowledged => if packet == 0 || packet == n + 1 {
                            (SendState::AwaitGate { packet }, None)
                        } else if packet >= n + 2 {
                            (SendState::Done, None)
                        } else {
                            (
                                SendState::AwaitAck { packet: (packet + 1) as usize },
                                Some(self.packet((packet + 1) as nat)),
                            )
                        },
                        Response::RetryRequested => (state, Some(self.packet(packet as nat))),
                        _ => (SendState::Failed(YmodemError::InvalidResponse), None),
                    },
                    SendState::AwaitGate { packet } => if b == ControlByte::C.byte() {
                        (
                            SendState::AwaitAck { packet: (packet + 1) as usize },
                            Some(self.packet((packet + 1) as nat)),
                        )
                    } else {
                        (SendState::Failed(YmodemError::InvalidResponse), None)
                    },
                    _ => (state, None),
                },
            }
        }
    }

    /// The first state of a transfer, and its first action.
    pub fn begin(&self) -> (r: (SendState, Action))
        ensures
            r.0 == SendState::AwaitReady,
            r.1 is Read,
            self.state_wf(r.0),
    {
        (SendState::AwaitReady, Action::Read)
    }

    /// Advances the transfer from `state` on `event`: returns the next state
    /// and what the transport must do next.
    pub fn step(&self, state: SendState, event: Event) -> (r: (SendState, Action))
        requires
            self.header_fits_spec(),
            self.state_wf(state),
        ensures
            r.0 == self.transition(state, event).0,
            action_is(r.1, r.0, self.transition(state, event).1),
            self.state_wf(r.0),
    {
        let n = block_count_of(self.fdata.len());
        assert(n + 2 <= usize::MAX) by (nonlinear_arith)
            requires
                n == (self.data().len() + 127) / 128,
                self.data().len() <= usize::MAX,
        ;
        match state {
            SendState::Done => return (state, Action::Finish(Ok(()))),
            SendState::Failed(e) => return (state, Action::Finish(Err(e))),
            _ => {},
        }
        match event {
            Event::TimedOut => {
                let e = YmodemError::Timeout;
                (SendState::Failed(e), Action::Finish(Err(e)))
            },
            Event::WriteFailed => {
                let e = YmodemError::SendFailed;
                (SendState::Failed(e), Action::Finish(Err(e)))
            },
            Event::Byte(b) => match state {
                SendState::AwaitReady => {
                    if b == ControlByte::C.as_byte() {
                        (SendState::AwaitAck { packet: 0 }, Action::Send(self.build_packet(0)))
                    } else {
                        (SendState::AwaitReady, Action::Read)
                    }
                },
                SendState::AwaitAck { packet } => match classify(b) {
                    Response::Acknowledged => {
                        if packet == 0 || packet == n + 1 {
                            (SendState::AwaitGate { packet }, Action::Read)
                        } else if packet >= n + 2 {
                            (SendState::Done, Action::Finish(Ok(())))
                        } else {
                            (
                                SendState::AwaitAck { packet: packet + 1 },
                                Action::Send(self.build_packet(packet + 1)),
                            )
                        }
                    },
                    Response::RetryRequested => (state, Action::Send(self.build_packet(packet))),
                    _ => {
                        let e = YmodemError::InvalidResponse;
                        (SendState::Failed(e), Action::Finish(Err(e)))
                    },
                },
                SendState::AwaitGate { packet } => {
                    if b == ControlByte::C.as_byte() {
                        (
                            SendState::AwaitAck { packet: packet + 1 },
                            Action::Send(self.build_packet(packet + 1)),
                        )
                    } else {
                        let e = YmodemError::InvalidResponse;
                        (SendState::Failed(e), Action::Finish(Err(e)))
                    }
                },
                _ => (state, Action::Read),
            },
        }
    }

    /// The state reached from `state` through `events`, and the bytes
    /// written on the way, in order.
    pub open spec fn run(&self, state: SendState, events: Seq<Event>) -> (SendState, Seq<Seq<u8>>)
        decreases events.len(),
    {
        if events.len() == 0 {
            (state, Seq::empty())
        } else {
            let first = self.transition(state, events[0]);
            let rest = self.run(first.0, events.drop_first());
            match first.1 {
                Some(b) => (rest.0, seq![b] + rest.1),
                None => (rest.0, rest.1),
            }
        }
    }

    /// A finished transfer stays as it is and writes nothing more, whatever
    /// the transport reports.
    pub proof fn lemma_terminal_is_final(&self, state: SendState, events: Seq<Event>)
        requires
            state.is_terminal(),
        ensures
            self.run(state, events) == (state, Seq::<Seq<u8>>::empty()),
        decreases events.len(),
    {
        if events.len() > 0 {
            self.lemma_terminal_is_final(state, events.drop_first());
        }
    }

    /// Answered by NAK, NAK, then ACK, a packet is written again twice with
    /// the same bytes, and the transfer goes on (or, after the last packet,
    /// completes).
    pub proof fn lemma_nak_resends_same_packet(&self, p: usize)
        requires
            self.state_wf(SendState::AwaitAck { packet: p }),
        ensures
            ({
                let nak = Event::Byte(ControlByte::Nak.byte());
                let ack = Event::Byte(ControlByte::Ack.byte());
                let r = self.run(SendState::AwaitAck { packet: p }, seq![nak, nak, ack]);
                &&& r.1.take(2) == seq![self.packet(p as nat), self.packet(p as nat)]
                &&& !(r.0 is Failed)
                &&& p == self.blocks() + 2 ==> r.0 == SendState::Done
            }),
    {
        let nak = Event::Byte(ControlByte::Nak.byte());
        let ack = Event::Byte(ControlByte::Ack.byte());
        let st = SendState::AwaitAck { packet: p };
        let evs = seq![nak, nak, ack];
        assert(evs.drop_first() =~= seq![nak, ack]);
        assert(seq![nak, ack].drop_first() =~= seq![ack]);
        assert(seq![ack].drop_first() =~= Seq::<Event>::empty());
        let pk = self.packet(p as nat);
        assert(response_of(ControlByte::Nak.byte()) == Response::RetryRequested);
        assert(response_of(ControlByte::Ack.byte()) == Response::Acknowledged);
        assert(self.transition(st, nak) == (st, Some(pk)));
        let last = self.transition(st, ack);
        let r3 = self.run(st, seq![ack]);
        assert(self.run(last.0, Seq::<Event>::empty()) == (last.0, Seq::<Seq<u8>>::empty()));
        assert(r3.0 == last.0);
        let r2 = self.run(st, seq![nak, ack]);
        assert(r2 == (r3.0, seq![pk] + r3.1));
        let r = self.run(st, evs);
        assert(r == (r3.0, seq![pk] + (seq![pk] + r3.1)));
        assert(r.1.take(2) =~= seq![pk, pk]);
    }

    /// Answered by CAN, a packet ends the transfer in failure at once, and
    /// nothing more is written, whatever the transport reports afterwards.
    pub proof fn lemma_cancel_aborts(&self, p: usize, later: Seq<Event>)
        requires
            self.state_wf(SendState::AwaitAck { packet: p }),
        ensures
            self.run(
                SendState::AwaitAck { packet: p },
                seq![Event::Byte(ControlByte::Can.byte())] + later,
            ) == (SendState::Failed(YmodemError::InvalidResponse), Seq::<Seq<u8>>::empty()),
    {
        let evs = seq![Event::Byte(ControlByte::Can.byte())] + later;
        assert(evs.drop_first() =~= later);
        self.lemma_terminal_is_final(SendState::Failed(YmodemError::InvalidResponse), later);
    }

    /// The data packets of a transfer are the data frames of the file's
    /// chunks, in order; their payloads, joined and cut to the file's length,
    /// give the file back.
    pub proof fn lemma_packets_round_trip(&self)
        ensures
            forall|k: nat|
                k < self.blocks() ==> #[trigger] self.packet(k + 1) == data_frame(
                    chunk_of(self.data(), k),
                    block_seq(k),
                ),
            joined_payloads(self.data(), self.blocks()).subrange(0, self.data().len() as int)
                == self.data(),
    {
        lemma_round_trip(self.data());
    }
}

} // verus!
