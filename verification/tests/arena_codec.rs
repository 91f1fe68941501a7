//! Byte-level tests of the storage-key layout and the calldata decoders.

use championship_escrow::abi::{
    read_addr_param, read_u256_as_u128, read_u32_param, read_u64_param, read_u8_param,
};
use championship_escrow::arena_keys::{
    key_agent, key_agent_bet_total, key_bet, key_dealer, key_platform, key_table,
    key_table_count,
};

#[test]
fn test_global_keys_distinct_prefixes() {
    let kc = key_table_count();
    let kp = key_platform();
    let kd = key_dealer();
    assert_eq!(kc[0], 0x01);
    assert_eq!(kp[0], 0x02);
    assert_eq!(kd[0], 0x03);
    for i in 1..32 {
        assert_eq!(kc[i], 0);
        assert_eq!(kp[i], 0);
        assert_eq!(kd[i], 0);
    }
}

#[test]
fn test_table_key_layout() {
    let k = key_table(0x01020304, 7);
    assert_eq!(k[0], 0x10);
    assert_eq!(&k[1..5], &[1, 2, 3, 4]);
    assert_eq!(k[5], 7);
    for i in 6..32 {
        assert_eq!(k[i], 0);
    }
}

#[test]
fn test_agent_and_bet_key_layout() {
    let ka = key_agent(0xA1B2C3D4, 5, 2);
    assert_eq!(ka[0], 0x20);
    assert_eq!(&ka[1..5], &[0xA1, 0xB2, 0xC3, 0xD4]);
    assert_eq!(ka[5], 5);
    assert_eq!(ka[6], 2);
    let kb = key_bet(3, 9, 1);
    assert_eq!(kb[0], 0x30);
    assert_eq!(&kb[1..5], &[0, 0, 0, 3]);
    assert_eq!(kb[5], 9);
    assert_eq!(kb[6], 1);
    let kt = key_agent_bet_total(3, 9);
    assert_eq!(kt[0], 0x40);
    assert_eq!(&kt[1..5], &[0, 0, 0, 3]);
    assert_eq!(kt[5], 9);
    assert_eq!(kt[6], 0);
}

fn word_with_tail(tail: &[u8]) -> Vec<u8> {
    let mut data = vec![0u8; 32];
    let start = 32 - tail.len();
    data[start..].copy_from_slice(tail);
    data
}

#[test]
fn test_read_u8_param() {
    let data = word_with_tail(&[0xAB]);
    assert_eq!(read_u8_param(&data, 0), 0xAB);
}

#[test]
fn test_read_u32_param() {
    let data = word_with_tail(&[0x01, 0x02, 0x03, 0x04]);
    assert_eq!(read_u32_param(&data, 0), 0x01020304);
}

#[test]
fn test_read_u64_param() {
    let data = word_with_tail(&[1, 2, 3, 4, 5, 6, 7, 8]);
    assert_eq!(read_u64_param(&data, 0), 0x0102030405060708);
}

#[test]
fn test_read_u256_as_u128_takes_low_half() {
    // The high 16 bytes of the 32-byte word are ignored.
    let mut data = vec![0xFFu8; 16];
    data.extend_from_slice(&[0u8; 14]);
    data.extend_from_slice(&[0x12, 0x34]);
    assert_eq!(read_u256_as_u128(&data, 0), 0x1234);
}

#[test]
fn test_read_at_offset() {
    // A selector-prefixed calldata layout: four selector bytes, then words.
    let mut data = vec![0xDE, 0xAD, 0xBE, 0xEF];
    data.extend_from_slice(&word_with_tail(&[0, 0, 0, 42]));
    assert_eq!(read_u32_param(&data, 4), 42);
}

#[test]
fn test_read_past_end_is_zero_padded() {
    let data: Vec<u8> = vec![];
    assert_eq!(read_u32_param(&data, 4), 0);
    assert_eq!(read_u256_as_u128(&data, 4), 0);
}

#[test]
fn test_read_addr_param() {
    let mut tail = [0u8; 20];
    for (i, b) in tail.iter_mut().enumerate() {
        *b = i as u8 + 1;
    }
    let data = word_with_tail(&tail);
    assert_eq!(read_addr_param(&data, 0), tail);
}
