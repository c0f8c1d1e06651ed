use vstd::prelude::*;

verus! {

/// One step of the shift register: shift left by one bit, folding the
/// polynomial 0x1021 back in when the top bit falls out.
pub open spec fn crc_shift(c: u16) -> u16 {
    if c & 0x8000u16 != 0 {
        ((c << 1u16) ^ 0x1021u16) as u16
    } else {
        (c << 1u16) as u16
    }
}

/// `k` register steps applied to `c`.
pub open spec fn crc_shifts(c: u16, k: nat) -> u16
    decreases k,
{
    if k == 0 {
        c
    } else {
        crc_shift(crc_shifts(c, (k - 1) as nat))
    }
}

/// The register after feeding one byte, most significant bit first.
pub open spec fn crc_byte(c: u16, b: u8) -> u16 {
    crc_shifts(c ^ ((b as u16) << 8u16), 8)
}

/// CRC-16 with polynomial 0x1021, initial register 0, no reflection and no
/// final XOR (the checksum used by the 16-bit checksum mode of the protocol).
pub open spec fn crc16(s: Seq<u8>) -> u16
    decreases s.len(),
{
    if s.len() == 0 {
        0
    } else {
        crc_byte(crc16(s.drop_last()), s.last())
    }
}

/// Computes the CRC-16 of `data`.
pub fn crc16_ccitt(data: &[u8]) -> (r: u16)
    ensures
        r == crc16(data@),
{
    let mut crc: u16 = 0;
    let mut i: usize = 0;
    while i < data.len()
        invariant
            i <= data@.len(),
            crc == crc16(data@.subrange(0, i as int)),
        decreases data@.len() - i,
    {
        let byte = data[i];
        assert(data@.subrange(0, i + 1).drop_last() =~= data@.subrange(0, i as int));
        crc = crc ^ ((byte as u16) << 8u16);
        let mut k: usize = 0;
        let ghost start = crc;
        while k < 8
            invariant
                k <= 8,
                crc == crc_shifts(start, k as nat),
            decreases 8 - k,
        {
            if crc & 0x8000u16 != 0 {
                crc = (crc << 1u16) ^ 0x1021u16;
            } else {
                crc = crc << 1u16;
            }
            k = k + 1;
        }
        i = i + 1;
    }
    assert(data@.subrange(0, data@.len() as int) =~= data@);
    crc
}

proof fn lemma_shift_injective(x: u16, y: u16)
    by (bit_vector)
    ensures
        crc_shift(x) == crc_shift(y) ==> x == y,
        crc_shift(0) == 0,
{
}

proof fn lemma_shifts_injective(x: u16, y: u16, k: nat)
    ensures
        crc_shifts(x, k) == crc_shifts(y, k) ==> x == y,
        crc_shifts(0, k) == 0,
    decreases k,
{
    if k > 0 {
        lemma_shifts_injective(x, y, (k - 1) as nat);
        lemma_shift_injective(crc_shifts(x, (k - 1) as nat), crc_shifts(y, (k - 1) as nat));
    }
}

proof fn lemma_byte_injective(c1: u16, b1: u8, c2: u16, b2: u8)
    ensures
        crc_byte(c1, b1) == crc_byte(c2, b2) && b1 == b2 ==> c1 == c2,
        crc_byte(c1, b1) == crc_byte(c2, b2) && c1 == c2 ==> b1 == b2,
        crc_byte(0, 0) == 0,
{
    let x1 = c1 ^ ((b1 as u16) << 8u16);
    let x2 = c2 ^ ((b2 as u16) << 8u16);
    lemma_shifts_injective(x1, x2, 8);
    assert(x1 == x2 && b1 == b2 ==> c1 == c2) by (bit_vector)
        requires
            x1 == c1 ^ ((b1 as u16) << 8u16),
            x2 == c2 ^ ((b2 as u16) << 8u16),
    ;
    assert(x1 == x2 && c1 == c2 ==> b1 == b2) by (bit_vector)
        requires
            x1 == c1 ^ ((b1 as u16) << 8u16),
            x2 == c2 ^ ((b2 as u16) << 8u16),
    ;
    assert(0u16 ^ ((0u8 as u16) << 8u16) == 0u16) by (bit_vector);
    lemma_shifts_injective(0, 0, 8);
}

/// The checksum is a function of the bytes alone: equal inputs give equal
/// checksums, however often it is computed.
pub proof fn lemma_checksum_deterministic(a: Seq<u8>, b: Seq<u8>)
    requires
        a =~= b,
    ensures
        crc16(a) == crc16(b),
{
}

/// A run of zero bytes of any length (the all-zero 128-byte block among them)
/// has checksum 0x0000.
pub proof fn lemma_checksum_of_zeros(n: nat)
    ensures
        crc16(Seq::new(n, |i: int| 0u8)) == 0,
    decreases n,
{
    if n > 0 {
        let s = Seq::new(n, |i: int| 0u8);
        lemma_checksum_of_zeros((n - 1) as nat);
        assert(s.drop_last() =~= Seq::new((n - 1) as nat, |i: int| 0u8));
        lemma_byte_injective(0, 0, 0, 0);
    }
}

/// Changing any one byte of a sequence to another value (in particular,
/// flipping any single bit) changes its checksum.
pub proof fn lemma_checksum_detects_single_change(s: Seq<u8>, i: int, v: u8)
    requires
        0 <= i < s.len(),
        v != s[i],
    ensures
        crc16(s.update(i, v)) != crc16(s),
    decreases s.len(),
{
    let t = s.update(i, v);
    if i == s.len() - 1 {
        assert(t.drop_last() =~= s.drop_last());
        lemma_byte_injective(crc16(t.drop_last()), v, crc16(s.drop_last()), s.last());
    } else {
        assert(t.drop_last() =~= s.drop_last().update(i, v));
        lemma_checksum_detects_single_change(s.drop_last(), i, v);
        lemma_byte_injective(crc16(t.drop_last()), t.last(), crc16(s.drop_last()), s.last());
    }
}

} // verus!
