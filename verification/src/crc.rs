//! The checksum of the entries of an archive: CRC-32.
use vstd::prelude::*;

verus! {

/// The polynomial of CRC-32, with its bits in the order of the checksum.
pub const CRC32_POLYNOMIAL: u32 = 0xedb88320;

/// The register of the checksum before the first byte.
pub const CRC32_START: u32 = 0xffffffff;

/// The register after one bit: shifted by one place, and combined with the
/// polynomial where the bit that leaves it is set.
pub open spec fn crc32_shift(register: u32) -> u32 {
    if register & 1 == 1 {
        (register >> 1) ^ CRC32_POLYNOMIAL
    } else {
        register >> 1
    }
}

/// The register after `bits` bits.
pub open spec fn crc32_shifts(register: u32, bits: nat) -> u32
    decreases bits,
{
    if bits == 0 {
        register
    } else {
        crc32_shift(crc32_shifts(register, (bits - 1) as nat))
    }
}

/// The register after the bytes `bytes`: each byte is combined with the
/// register, which is then shifted by the eight bits of the byte.
pub open spec fn crc32_register(bytes: Seq<u8>) -> u32
    decreases bytes.len(),
{
    if bytes.len() == 0 {
        CRC32_START
    } else {
        crc32_shifts(crc32_register(bytes.drop_last()) ^ (bytes.last() as u32), 8)
    }
}

/// The CRC-32 of `bytes`: the register after all of them, bit by bit inverted.
pub open spec fn crc32_of(bytes: Seq<u8>) -> u32 {
    !crc32_register(bytes)
}

/// Computes the CRC-32 of `bytes`.
pub fn crc32(bytes: &[u8]) -> (checksum: u32)
    ensures
        checksum == crc32_of(bytes@),
{
    let mut register: u32 = CRC32_START;
    let mut i: usize = 0;
    assert(bytes@.take(0) =~= Seq::<u8>::empty());
    while i < bytes.len()
        invariant
            i <= bytes@.len(),
            register == crc32_register(bytes@.take(i as int)),
        decreases bytes@.len() - i,
    {
        let ghost before = register;
        register = register ^ (bytes[i] as u32);
        let mut bit: usize = 0;
        while bit < 8
            invariant
                bit <= 8,
                register == crc32_shifts(before ^ (bytes@[i as int] as u32), bit as nat),
            decreases 8 - bit,
        {
            register = if register & 1 == 1 {
                (register >> 1) ^ CRC32_POLYNOMIAL
            } else {
                register >> 1
            };
            bit += 1;
        }
        proof {
            assert(bytes@.take(i + 1).drop_last() =~= bytes@.take(i as int));
            assert(bytes@.take(i + 1).last() == bytes@[i as int]);
        }
        i += 1;
    }
    assert(bytes@.take(i as int) =~= bytes@);
    !register
}

} // verus!
