use kernel::utils::bits::{GetBit, SetBit};

#[test]
fn test_get_bit() {
    assert_eq!(0u8.get_bit(3), false);
    assert_eq!(0u8.get_bit(7), false);
    assert_eq!(0xFFu8.get_bit(3), true);
    assert_eq!(0xFFu8.get_bit(6), true);
    assert_eq!(0x9Au8.get_bit(7), true);
    assert_eq!(0x9Au8.get_bit(4), true);
}

#[test]
fn test_get_bits() {
    assert_eq!(0u8.get_bits(3, 2), 0);
    assert_eq!(0xFFu8.get_bits(3, 2), 3);
    assert_eq!(0x30u8.get_bits(5, 2), 3);

    assert_eq!(0x0000000012345678u64.get_bits(31, 32), 0x12345678);
    assert_eq!(0x1234567800000000u64.get_bits(63, 32), 0x12345678);
}

#[test]
fn test_set_bit() {
    let mut val = 0x00u8;
    val.set_bit(3, true);
    assert_eq!(val, 8);
    val.set_bit(3, false);
    assert_eq!(val, 0);
}

#[test]
fn test_set_bits() {
    let mut val = 0x00u8;
    val.set_bits(5, 2, 3);
    assert_eq!(val, 0x30);
    val.set_bits(5, 2, 0);
    assert_eq!(val, 0);

    let mut v = 0u64;
    v.set_bits(31, 32, 0x12345678);
    assert_eq!(v, 0x12345678);

    let mut v = 0u64;
    v.set_bits(63, 32, 0x12345678);
    assert_eq!(v, 0x1234567800000000);
}

#[test]
fn test_clear_set_bit() {
    let mut val = 0xFFu8;

    val.set_bit(0, false);
    val.set_bit(1, false);
    val.set_bit(2, false);
    val.set_bit(3, false);
    val.set_bit(4, false);
    val.set_bit(5, false);
    val.set_bit(6, false);
    val.set_bit(7, false);
    assert_eq!(val, 0);
}

#[test]
fn get_bits_of_other_widths() {
    assert_eq!(0xDEAD_BEEFu32.get_bits(31, 16), 0xDEAD);
    assert_eq!(0xDEAD_BEEFu32.get_bits(15, 16), 0xBEEF);
    assert_eq!(0xDEAD_BEEFu32.get_bit(0), true);
    assert_eq!(0xDEAD_BEEFu32.get_bit(4), false);
    assert_eq!(0xFFu8.get_bits(7, 0), 0);
    assert_eq!(0xA5u8.get_bits(7, 7), 0x52);
    assert_eq!(0x8000_0000_0000_0000u64.get_bit(63), true);
}

#[test]
fn set_bits_replaces_the_whole_field() {
    let mut val = 0xFFu8;
    val.set_bits(5, 2, 1);
    assert_eq!(val, 0xDF);
    let mut val = 0xFFu8;
    val.set_bits(7, 8, 0x12);
    assert_eq!(val, 0x12);
    let mut v = u64::MAX;
    v.set_bits(63, 64, 7);
    assert_eq!(v, 7);
    let mut v = u64::MAX;
    v.set_bits(47, 16, 0);
    assert_eq!(v, 0xFFFF_0000_FFFF_FFFF);
}

#[test]
fn set_bits_lets_a_value_too_wide_spill_over() {
    let mut val = 0x00u8;
    val.set_bits(1, 2, 0x7);
    assert_eq!(val, 0x7);
}

#[test]
fn what_was_set_reads_back() {
    let mut v = 0x0123_4567_89AB_CDEFu64;
    v.set_bits(43, 4, 0xE);
    assert_eq!(v.get_bits(43, 4), 0xE);
    assert_eq!(v.get_bits(39, 40), 0x67_89AB_CDEF);
    assert_eq!(v.get_bits(63, 20), 0x01234);
    v.set_bit(47, true);
    assert!(v.get_bit(47));
    assert_eq!(v.get_bits(43, 4), 0xE);
}
