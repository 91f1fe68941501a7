//! Wire-level argument decoding: big-endian integers and addresses read out
//! of 32-byte words of the call data. Reads past the end of the data see
//! zero bytes, as the host's calldata loader pads.

use vstd::prelude::*;

verus! {

/// The byte of `data` at `j`, zero past the end.
pub open spec fn spec_byte(data: Seq<u8>, j: int) -> u8 {
    if 0 <= j < data.len() {
        data[j]
    } else {
        0
    }
}

/// Read one byte of the call data, zero-padded past the end.
pub fn byte_at(data: &Vec<u8>, j: u32) -> (r: u8)
    ensures
        r == spec_byte(data@, j as int),
{
    if (j as usize) < data.len() {
        data[j as usize]
    } else {
        0
    }
}

/// Read the low 8 bits of the 32-byte word at `offset`.
pub fn read_u8_param(data: &Vec<u8>, offset: u32) -> (r: u8)
    requires
        offset <= u32::MAX - 32,
    ensures
        r == spec_byte(data@, offset + 31),
{
    byte_at(data, offset + 31)
}

/// Read the low 32 bits of the 32-byte word at `offset`, big-endian.
pub fn read_u32_param(data: &Vec<u8>, offset: u32) -> (r: u32)
    requires
        offset <= u32::MAX - 32,
    ensures
        r as int == spec_byte(data@, offset + 28) * 0x1000000
            + spec_byte(data@, offset + 29) * 0x10000
            + spec_byte(data@, offset + 30) * 0x100
            + spec_byte(data@, offset + 31),
{
    (byte_at(data, offset + 28) as u32) * 0x1000000
        + (byte_at(data, offset + 29) as u32) * 0x10000
        + (byte_at(data, offset + 30) as u32) * 0x100
        + (byte_at(data, offset + 31) as u32)
}

/// Read the low 64 bits of the 32-byte word at `offset`, big-endian.
pub fn read_u64_param(data: &Vec<u8>, offset: u32) -> (r: u64)
    requires
        offset <= u32::MAX - 32,
    ensures
        r as int == spec_byte(data@, offset + 24) * 0x100000000000000
            + spec_byte(data@, offset + 25) * 0x1000000000000
            + spec_byte(data@, offset + 26) * 0x10000000000
            + spec_byte(data@, offset + 27) * 0x100000000
            + spec_byte(data@, offset + 28) * 0x1000000
            + spec_byte(data@, offset + 29) * 0x10000
            + spec_byte(data@, offset + 30) * 0x100
            + spec_byte(data@, offset + 31),
{
    (byte_at(data, offset + 24) as u64) * 0x100000000000000
        + (byte_at(data, offset + 25) as u64) * 0x1000000000000
        + (byte_at(data, offset + 26) as u64) * 0x10000000000
        + (byte_at(data, offset + 27) as u64) * 0x100000000
        + (byte_at(data, offset + 28) as u64) * 0x1000000
        + (byte_at(data, offset + 29) as u64) * 0x10000
        + (byte_at(data, offset + 30) as u64) * 0x100
        + (byte_at(data, offset + 31) as u64)
}

/// Read the low 128 bits of the 32-byte word at `offset`, big-endian: how a
/// 256-bit wire amount is taken in, its upper half ignored.
pub fn read_u256_as_u128(data: &Vec<u8>, offset: u32) -> (r: u128)
    requires
        offset <= u32::MAX - 32,
    ensures
        r as int == spec_byte(data@, offset + 16) * 0x1000000000000000000000000000000
            + spec_byte(data@, offset + 17) * 0x10000000000000000000000000000
            + spec_byte(data@, offset + 18) * 0x100000000000000000000000000
            + spec_byte(data@, offset + 19) * 0x1000000000000000000000000
            + spec_byte(data@, offset + 20) * 0x10000000000000000000000
            + spec_byte(data@, offset + 21) * 0x100000000000000000000
            + spec_byte(data@, offset + 22) * 0x1000000000000000000
            + spec_byte(data@, offset + 23) * 0x10000000000000000
            + spec_byte(data@, offset + 24) * 0x100000000000000
            + spec_byte(data@, offset + 25) * 0x1000000000000
            + spec_byte(data@, offset + 26) * 0x10000000000
            + spec_byte(data@, offset + 27) * 0x100000000
            + spec_byte(data@, offset + 28) * 0x1000000
            + spec_byte(data@, offset + 29) * 0x10000
            + spec_byte(data@, offset + 30) * 0x100
            + spec_byte(data@, offset + 31),
{
    (byte_at(data, offset + 16) as u128) * 0x1000000000000000000000000000000
        + (byte_at(data, offset + 17) as u128) * 0x10000000000000000000000000000
        + (byte_at(data, offset + 18) as u128) * 0x100000000000000000000000000
        + (byte_at(data, offset + 19) as u128) * 0x1000000000000000000000000
        + (byte_at(data, offset + 20) as u128) * 0x10000000000000000000000
        + (byte_at(data, offset + 21) as u128) * 0x100000000000000000000
        + (byte_at(data, offset + 22) as u128) * 0x1000000000000000000
        + (byte_at(data, offset + 23) as u128) * 0x10000000000000000
        + (byte_at(data, offset + 24) as u128) * 0x100000000000000
        + (byte_at(data, offset + 25) as u128) * 0x1000000000000
        + (byte_at(data, offset + 26) as u128) * 0x10000000000
        + (byte_at(data, offset + 27) as u128) * 0x100000000
        + (byte_at(data, offset + 28) as u128) * 0x1000000
        + (byte_at(data, offset + 29) as u128) * 0x10000
        + (byte_at(data, offset + 30) as u128) * 0x100
        + (byte_at(data, offset + 31) as u128)
}

/// Read the low 20 bytes of the 32-byte word at `offset`: an address.
pub fn read_addr_param(data: &Vec<u8>, offset: u32) -> (r: crate::arena::Addr)
    requires
        offset <= u32::MAX - 32,
    ensures
        forall|i: int| 0 <= i < 20 ==> r@[i] == spec_byte(data@, offset + 12 + i),
{
    let mut a = [0u8; 20];
    let mut i: u32 = 0;
    while i < 20
        invariant
            i <= 20,
            offset <= u32::MAX - 32,
            forall|j: int| 0 <= j < i ==> a@[j] == spec_byte(data@, offset + 12 + j),
        decreases 20 - i,
    {
        let b = byte_at(data, offset + 12 + i);
        a[i as usize] = b;
        i = i + 1;
    }
    a
}

} // verus!
