use vstd::prelude::*;

verus! {

/// The single-byte signals of the protocol.
#[derive(Clone, Copy, Debug, PartialEq, Eq, Structural)]
pub enum ControlByte {
    /// Start of a 128-byte frame.
    Soh,
    /// Start of a 1024-byte frame (reserved, never sent).
    Stx,
    /// End of transmission.
    Eot,
    /// Frame accepted.
    Ack,
    /// Frame rejected, send it again.
    Nak,
    /// The peer cancels the session.
    Can,
    /// The peer is ready, in checksum mode.
    C,
}

impl ControlByte {
    /// The value of the signal on the wire.
    pub open spec fn byte(self) -> u8 {
        match self {
            ControlByte::Soh => 0x01,
            ControlByte::Stx => 0x02,
            ControlByte::Eot => 0x04,
            ControlByte::Ack => 0x06,
            ControlByte::Nak => 0x15,
            ControlByte::Can => 0x18,
            ControlByte::C => 0x43,
        }
    }

    /// The value of the signal on the wire.
    pub fn as_byte(self) -> (r: u8)
        ensures
            r == self.byte(),
    {
        match self {
            ControlByte::Soh => 0x01,
            ControlByte::Stx => 0x02,
            ControlByte::Eot => 0x04,
            ControlByte::Ack => 0x06,
            ControlByte::Nak => 0x15,
            ControlByte::Can => 0x18,
            ControlByte::C => 0x43,
        }
    }

    /// The signal whose wire value is `b`, if any.
    pub fn from_byte(b: u8) -> (r: Option<ControlByte>)
        ensures
            r matches Some(c) ==> c.byte() == b,
            r is None <==> (forall|c: ControlByte| c.byte() != b),
    {
        let r = match b {
            0x01 => Some(ControlByte::Soh),
            0x02 => Some(ControlByte::Stx),
            0x04 => Some(ControlByte::Eot),
            0x06 => Some(ControlByte::Ack),
            0x15 => Some(ControlByte::Nak),
            0x18 => Some(ControlByte::Can),
            0x43 => Some(ControlByte::C),
            _ => None,
        };
        proof {
            if r is None {
                assert forall|c: ControlByte| c.byte() != b by {
                    match c {
                        ControlByte::Soh => {},
                        ControlByte::Stx => {},
                        ControlByte::Eot => {},
                        ControlByte::Ack => {},
                        ControlByte::Nak => {},
                        ControlByte::Can => {},
                        ControlByte::C => {},
                    }
                }
            }
        }
        r
    }
}

/// What a byte read after sending a frame means.
#[derive(Clone, Copy, Debug, PartialEq, Eq, Structural)]
pub enum Response {
    /// ACK: the frame was accepted.
    Acknowledged,
    /// NAK: the frame must be sent again.
    RetryRequested,
    /// CAN: the peer has cancelled the session.
    Aborted,
    /// Any other byte: a protocol violation.
    Unexpected,
}

/// The meaning of byte `b` read after sending a frame.
pub open spec fn response_of(b: u8) -> Response {
    if b == ControlByte::Ack.byte() {
        Response::Acknowledged
    } else if b == ControlByte::Nak.byte() {
        Response::RetryRequested
    } else if b == ControlByte::Can.byte() {
        Response::Aborted
    } else {
        Response::Unexpected
    }
}

/// Classifies the byte `b` read after sending a frame.
pub fn classify(b: u8) -> (r: Response)
    ensures
        r == response_of(b),
{
    match ControlByte::from_byte(b) {
        Some(ControlByte::Ack) => Response::Acknowledged,
        Some(ControlByte::Nak) => Response::RetryRequested,
        Some(ControlByte::Can) => Response::Aborted,
        _ => Response::Unexpected,
    }
}

} // verus!
