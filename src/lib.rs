//! The sending side of the YMODEM batch file-transfer protocol: checksum,
//! frame layout, response classification, and the transfer state machine
//! that a transport runner drives one event at a time.

pub mod control;
pub mod crc;
pub mod frame;
pub mod sender;

pub use sender::{YmodemError, YmodemSender};
