use vstd::prelude::*;

use crate::control::ControlByte;
use crate::crc::{crc16, crc16_ccitt};

verus! {

/// Size of the payload carried by every frame.
pub const PACKET_SIZE: usize = 128;

/// Total size of a header, data or termination frame.
pub const FRAME_SIZE: usize = 133;

/// `c` zero-padded at the end to a full payload.
pub open spec fn pad_block(c: Seq<u8>) -> Seq<u8> {
    c + Seq::new((PACKET_SIZE - c.len()) as nat, |i: int| 0u8)
}

/// The wire image of a frame: SOH, the sequence byte and its complement, the
/// 128-byte payload, then its checksum high byte first.
pub open spec fn frame_of(seq_no: u8, payload: Seq<u8>) -> Seq<u8> {
    seq![ControlByte::Soh.byte(), seq_no, (255 - seq_no) as u8] + payload + seq![
        (crc16(payload) / 256) as u8,
        (crc16(payload) % 256) as u8,
    ]
}

/// The ASCII decimal representation of `n`, without leading zeros.
pub open spec fn decimal(n: nat) -> Seq<u8>
    decreases n,
{
    if n < 10 {
        seq![(48 + n) as u8]
    } else {
        decimal(n / 10).push((48 + n % 10) as u8)
    }
}

/// The metadata carried by the header frame: the name, NUL, the size in
/// decimal, and a space.
pub open spec fn file_info(name: Seq<u8>, size: nat) -> Seq<u8> {
    name + seq![0u8] + decimal(size) + seq![0x20u8]
}

/// The header frame for a file of `size` bytes named `name`.
pub open spec fn header_frame(name: Seq<u8>, size: nat) -> Seq<u8> {
    frame_of(0, pad_block(file_info(name, size)))
}

/// The data frame that carries `chunk` under sequence number `n`.
pub open spec fn data_frame(chunk: Seq<u8>, n: u8) -> Seq<u8> {
    frame_of(n, pad_block(chunk))
}

/// The payload carried by a frame.
pub open spec fn payload_of(frame: Seq<u8>) -> Seq<u8> {
    frame.subrange(3, 3 + PACKET_SIZE as int)
}

/// Appends the bytes of `src` to `v`.
fn append_bytes(v: &mut Vec<u8>, src: &[u8])
    requires
        old(v)@.len() + src@.len() <= usize::MAX,
    ensures
        final(v)@ == old(v)@ + src@,
{
    let mut i: usize = 0;
    while i < src.len()
        invariant
            i <= src@.len(),
            v@ == old(v)@ + src@.subrange(0, i as int),
            old(v)@.len() + src@.len() <= usize::MAX,
        decreases src@.len() - i,
    {
        v.push(src[i]);
        i = i + 1;
        assert(v@ =~= old(v)@ + src@.subrange(0, i as int));
    }
    assert(src@.subrange(0, src@.len() as int) =~= src@);
}

/// `data` zero-padded to a full payload.
pub(crate) fn pad_to_block(data: &[u8]) -> (r: Vec<u8>)
    requires
        data@.len() <= PACKET_SIZE,
    ensures
        r@ == pad_block(data@),
{
    let mut r: Vec<u8> = Vec::new();
    append_bytes(&mut r, data);
    while r.len() < PACKET_SIZE
        invariant
            data@.len() <= r@.len() <= PACKET_SIZE,
            r@ == data@ + Seq::new((r@.len() - data@.len()) as nat, |i: int| 0u8),
        decreases PACKET_SIZE - r@.len(),
    {
        r.push(0);
        assert(r@ =~= data@ + Seq::new((r@.len() - data@.len()) as nat, |i: int| 0u8));
    }
    r
}

/// Frames a full payload under sequence number `seq_no`.
pub(crate) fn build_frame(seq_no: u8, payload: &Vec<u8>) -> (r: Vec<u8>)
    requires
        payload@.len() == PACKET_SIZE,
    ensures
        r@ == frame_of(seq_no, payload@),
{
    let mut frame: Vec<u8> = vec![ControlByte::Soh.as_byte(), seq_no, !seq_no];
    assert(!seq_no == (255 - seq_no) as u8) by (bit_vector);
    append_bytes(&mut frame, payload.as_slice());
    let crc_value = crc16_ccitt(payload.as_slice());
    assert((crc_value >> 8u16) as u8 == (crc_value / 256) as u8) by (bit_vector);
    assert((crc_value & 0xFFu16) as u8 == (crc_value % 256) as u8) by (bit_vector);
    frame.push((crc_value >> 8u16) as u8);
    frame.push((crc_value & 0xFFu16) as u8);
    assert(frame@ =~= frame_of(seq_no, payload@));
    frame
}

/// The ASCII decimal digits of `n`.
pub fn decimal_digits(n: usize) -> (r: Vec<u8>)
    ensures
        r@ == decimal(n as nat),
    decreases n,
{
    if n < 10 {
        vec![48 + n as u8]
    } else {
        let mut r = decimal_digits(n / 10);
        r.push(48 + (n % 10) as u8);
        r
    }
}

/// Number of data frames that carry a file of `len` bytes.
pub open spec fn block_count(len: nat) -> nat {
    (len + 127) / 128
}

/// End of the `k`-th chunk of a file of `len` bytes.
pub open spec fn chunk_end(len: nat, k: nat) -> nat {
    if 128 * k + 128 <= len {
        128 * k + 128
    } else {
        len
    }
}

/// The `k`-th 128-byte chunk of `data` (the last one may be shorter).
pub open spec fn chunk_of(data: Seq<u8>, k: nat) -> Seq<u8> {
    data.subrange((128 * k) as int, chunk_end(data.len(), k) as int)
}

/// Sequence number of the data frame that carries chunk `k`: counting from 1,
/// wrapping at 256.
pub open spec fn block_seq(k: nat) -> u8 {
    ((k + 1) % 256) as u8
}

/// The payloads of the data frames for the first `k` chunks of `data`, joined
/// in order.
pub open spec fn joined_payloads(data: Seq<u8>, k: nat) -> Seq<u8>
    decreases k,
{
    if k == 0 {
        Seq::empty()
    } else {
        joined_payloads(data, (k - 1) as nat) + payload_of(
            data_frame(chunk_of(data, (k - 1) as nat), block_seq((k - 1) as nat)),
        )
    }
}

proof fn lemma_payload_of_frame(n: u8, payload: Seq<u8>)
    requires
        payload.len() == PACKET_SIZE,
    ensures
        payload_of(frame_of(n, payload)) == payload,
        frame_of(n, payload).len() == FRAME_SIZE,
{
    assert(payload_of(frame_of(n, payload)) =~= payload);
}

proof fn lemma_joined_prefix(data: Seq<u8>, k: nat)
    requires
        k <= block_count(data.len()),
    ensures
        joined_payloads(data, k).len() == 128 * k,
        128 * k <= data.len() + 127,
        joined_payloads(data, k).subrange(0, chunk_end(data.len(), (k - 1) as nat) as int)
            == data.subrange(0, chunk_end(data.len(), (k - 1) as nat) as int) || k == 0,
    decreases k,
{
    let len = data.len();
    assert(128 * k <= len + 127) by (nonlinear_arith)
        requires
            k <= (len + 127) / 128,
    ;
    if k > 0 {
        let j = (k - 1) as nat;
        lemma_joined_prefix(data, j);
        assert(128 * j < len) by (nonlinear_arith)
            requires
                128 * k <= len + 127,
                j == k - 1,
        ;
        let c = chunk_of(data, j);
        let e = chunk_end(len, j);
        assert(128 * j + 128 == 128 * k);
        lemma_payload_of_frame(block_seq(j), pad_block(c));
        let prev = joined_payloads(data, j);
        assert(prev.len() == 128 * j);
        if j > 0 {
            let i = (j - 1) as nat;
            assert(chunk_end(len, i) == 128 * j);
            assert(prev.subrange(0, (128 * j) as int) =~= prev);
        }
        assert(prev =~= data.subrange(0, (128 * j) as int));
        assert(joined_payloads(data, k).subrange(0, e as int) =~= data.subrange(0, e as int));
    }
}

/// Splitting `data` into chunks, framing each one, then joining the frames'
/// payloads and cutting the result to the original length gives `data` back.
pub proof fn lemma_round_trip(data: Seq<u8>)
    ensures
        joined_payloads(data, block_count(data.len())).subrange(0, data.len() as int) == data,
{
    let n = block_count(data.len());
    lemma_joined_prefix(data, n);
    if n == 0 {
        assert(data.len() == 0);
        assert(data =~= Seq::empty());
    } else {
        let j = (n - 1) as nat;
        assert(128 * j < data.len() && data.len() <= 128 * j + 128) by (nonlinear_arith)
            requires
                n == (data.len() + 127) / 128,
                j == n - 1,
        ;
        assert(chunk_end(data.len(), j) == data.len());
        assert(data.subrange(0, data.len() as int) =~= data);
    }
}

} // verus!
