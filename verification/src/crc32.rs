//! CRC-32 as ZIP uses it: polynomial 0xEDB88320 (reflected), all ones at the
//! start, all bits inverted at the end.

use vstd::prelude::*;

verus! {

/// One step of the shift register.
pub open spec fn step(c: u32) -> u32 {
    if c % 2 == 1 {
        (c / 2) ^ 0xEDB8_8320u32
    } else {
        c / 2
    }
}

/// `n` steps of the shift register.
pub open spec fn steps(c: u32, n: nat) -> u32
    decreases n,
{
    if n == 0 {
        c
    } else {
        step(steps(c, (n - 1) as nat))
    }
}

/// The register after a byte went in.
pub open spec fn feed(c: u32, byte: u8) -> u32 {
    steps(c ^ (byte as u32), 8)
}

/// The register after all of `data` went in.
pub open spec fn register(data: Seq<u8>) -> u32
    decreases data.len(),
{
    if data.len() == 0 {
        0xFFFF_FFFFu32
    } else {
        feed(register(data.drop_last()), data.last())
    }
}

/// The CRC-32 of `data`.
pub open spec fn crc32(data: Seq<u8>) -> u32 {
    register(data) ^ 0xFFFF_FFFFu32
}

/// Computes the CRC-32 of `data`.
pub fn checksum(data: &[u8]) -> (crc: u32)
    ensures
        crc == crc32(data@),
{
    let mut c: u32 = 0xFFFF_FFFF;
    let mut i: usize = 0;
    while i < data.len()
        invariant
            i <= data@.len(),
            c == register(data@.take(i as int)),
        decreases data@.len() - i,
    {
        c = c ^ (data[i] as u32);
        let ghost mixed = c;
        let mut k: u8 = 0;
        while k < 8
            invariant
                k <= 8,
                c == steps(mixed, k as nat),
            decreases 8 - k,
        {
            if c % 2 == 1 {
                c = (c / 2) ^ 0xEDB8_8320u32;
            } else {
                c = c / 2;
            }
            k += 1;
        }
        proof {
            assert(data@.take(i + 1).drop_last() =~= data@.take(i as int));
            assert(data@.take(i + 1).last() == data@[i as int]);
        }
        i += 1;
    }
    proof {
        assert(data@.take(i as int) =~= data@);
    }
    c ^ 0xFFFF_FFFFu32
}

} // verus!
