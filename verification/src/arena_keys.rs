//! The storage-key layout of the table game: 32-byte keys, one prefix byte
//! per entity type, big-endian table id, then seat and field selectors. The
//! host persists state under these keys; the per-byte contracts pin the
//! layout, which keeps distinct entities at distinct keys.

use vstd::prelude::*;

verus! {

/// The key of the global table counter.
pub fn key_table_count() -> (r: [u8; 32])
    ensures
        r@[0] == 0x01u8,
        forall|i: int| 1 <= i < 32 ==> r@[i] == 0u8,
{
    let mut k = [0u8; 32];
    k[0] = 0x01;
    k
}

/// The key of the platform address.
pub fn key_platform() -> (r: [u8; 32])
    ensures
        r@[0] == 0x02u8,
        forall|i: int| 1 <= i < 32 ==> r@[i] == 0u8,
{
    let mut k = [0u8; 32];
    k[0] = 0x02;
    k
}

/// The key of the dealer address.
pub fn key_dealer() -> (r: [u8; 32])
    ensures
        r@[0] == 0x03u8,
        forall|i: int| 1 <= i < 32 ==> r@[i] == 0u8,
{
    let mut k = [0u8; 32];
    k[0] = 0x03;
    k
}

/// The four big-endian bytes of a table id, most significant first.
pub open spec fn spec_tid_byte(tid: u32, b: int) -> u8 {
    if b == 0 {
        (tid / 0x1000000) as u8
    } else if b == 1 {
        ((tid / 0x10000) % 0x100) as u8
    } else if b == 2 {
        ((tid / 0x100) % 0x100) as u8
    } else {
        (tid % 0x100) as u8
    }
}

/// The key of a table field: prefix, big-endian table id, field selector.
pub fn key_table(tid: u32, f: u8) -> (r: [u8; 32])
    ensures
        r@[0] == 0x10u8,
        forall|b: int| 0 <= b < 4 ==> r@[1 + b] == spec_tid_byte(tid, b),
        r@[5] == f,
        forall|i: int| 6 <= i < 32 ==> r@[i] == 0u8,
{
    let mut k = [0u8; 32];
    k[0] = 0x10;
    k[1] = (tid / 0x1000000) as u8;
    k[2] = ((tid / 0x10000) % 0x100) as u8;
    k[3] = ((tid / 0x100) % 0x100) as u8;
    k[4] = (tid % 0x100) as u8;
    k[5] = f;
    k
}

/// The key of an agent field: prefix, big-endian table id, seat, field
/// selector.
pub fn key_agent(tid: u32, seat: u8, f: u8) -> (r: [u8; 32])
    ensures
        r@[0] == 0x20u8,
        forall|b: int| 0 <= b < 4 ==> r@[1 + b] == spec_tid_byte(tid, b),
        r@[5] == seat,
        r@[6] == f,
        forall|i: int| 7 <= i < 32 ==> r@[i] == 0u8,
{
    let mut k = [0u8; 32];
    k[0] = 0x20;
    k[1] = (tid / 0x1000000) as u8;
    k[2] = ((tid / 0x10000) % 0x100) as u8;
    k[3] = ((tid / 0x100) % 0x100) as u8;
    k[4] = (tid % 0x100) as u8;
    k[5] = seat;
    k[6] = f;
    k
}

/// The key of a side-bet field: prefix, big-endian table id, bet index,
/// field selector.
pub fn key_bet(tid: u32, idx: u8, f: u8) -> (r: [u8; 32])
    ensures
        r@[0] == 0x30u8,
        forall|b: int| 0 <= b < 4 ==> r@[1 + b] == spec_tid_byte(tid, b),
        r@[5] == idx,
        r@[6] == f,
        forall|i: int| 7 <= i < 32 ==> r@[i] == 0u8,
{
    let mut k = [0u8; 32];
    k[0] = 0x30;
    k[1] = (tid / 0x1000000) as u8;
    k[2] = ((tid / 0x10000) % 0x100) as u8;
    k[3] = ((tid / 0x100) % 0x100) as u8;
    k[4] = (tid % 0x100) as u8;
    k[5] = idx;
    k[6] = f;
    k
}

/// The key of a seat's accumulated side-bet total: prefix, big-endian table
/// id, seat.
pub fn key_agent_bet_total(tid: u32, seat: u8) -> (r: [u8; 32])
    ensures
        r@[0] == 0x40u8,
        forall|b: int| 0 <= b < 4 ==> r@[1 + b] == spec_tid_byte(tid, b),
        r@[5] == seat,
        forall|i: int| 6 <= i < 32 ==> r@[i] == 0u8,
{
    let mut k = [0u8; 32];
    k[0] = 0x40;
    k[1] = (tid / 0x1000000) as u8;
    k[2] = ((tid / 0x10000) % 0x100) as u8;
    k[3] = ((tid / 0x100) % 0x100) as u8;
    k[4] = (tid % 0x100) as u8;
    k[5] = seat;
    k
}

} // verus!
