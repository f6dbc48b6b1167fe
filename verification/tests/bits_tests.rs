use macro_workshop::bits::{get_bits, set_bits};
use macro_workshop::specifier::{
    next_multiple_of_8, Specifier, B1, B24, B3, B4, B64, B8, B9,
};

#[test]
fn get_bits_reads_most_significant_first() {
    let data = [0b1010_0000u8, 0xff];
    assert_eq!(get_bits(&data, 0, 1), 1);
    assert_eq!(get_bits(&data, 1, 1), 0);
    assert_eq!(get_bits(&data, 0, 3), 0b101);
    assert_eq!(get_bits(&data, 4, 8), 0b0000_1111);
    assert_eq!(get_bits(&data, 0, 16), 0xa0ff);
    assert_eq!(get_bits(&data, 3, 0), 0);
}

#[test]
fn set_bits_ors_across_bytes() {
    let mut data = [0u8; 3];
    set_bits(&mut data, 4, 8, 0xab);
    assert_eq!(data, [0x0a, 0xb0, 0x00]);
    set_bits(&mut data, 12, 12, 0xfff);
    assert_eq!(data, [0x0a, 0xbf, 0xff]);
}

#[test]
fn set_bits_keeps_only_low_bits_of_value() {
    let mut data = [0u8; 1];
    set_bits(&mut data, 2, 3, 0b1111_1101);
    assert_eq!(data, [0b0010_1000]);
    assert_eq!(get_bits(&data, 2, 3), 0b101);
}

#[test]
fn set_bits_does_not_clear_bits_already_set() {
    let mut data = [0xffu8];
    set_bits(&mut data, 0, 8, 0);
    assert_eq!(data, [0xff]);
}

#[test]
fn read_after_write_law_on_values() {
    let mut data = [0u8; 8];
    set_bits(&mut data, 5, 40, 0x12_3456_789a);
    assert_eq!(get_bits(&data, 5, 40), 0x12_3456_789a);
    assert_eq!(get_bits(&data, 0, 5), 0);
    assert_eq!(get_bits(&data, 45, 19), 0);
}

#[test]
fn write_keeps_other_fields_law_on_values() {
    let mut data = [0u8; 4];
    set_bits(&mut data, 0, 1, 1);
    set_bits(&mut data, 8, 24, 0xabcdef);
    let before = get_bits(&data, 8, 24);
    set_bits(&mut data, 1, 3, 0b110);
    assert_eq!(get_bits(&data, 8, 24), before);
    assert_eq!(get_bits(&data, 0, 1), 1);
    assert_eq!(get_bits(&data, 1, 3), 0b110);
}

#[test]
fn full_width_field() {
    let mut data = [0u8; 9];
    set_bits(&mut data, 3, 64, u64::MAX);
    assert_eq!(get_bits(&data, 3, 64), u64::MAX);
    assert_eq!(get_bits(&data, 0, 3), 0);
    assert_eq!(get_bits(&data, 67, 5), 0);
}

#[test]
fn next_multiple_of_8_small_widths() {
    for n in 0..=8 {
        assert_eq!(next_multiple_of_8(n), 8);
    }
}

#[test]
fn next_multiple_of_8_larger_widths() {
    assert_eq!(next_multiple_of_8(9), 16);
    assert_eq!(next_multiple_of_8(16), 16);
    assert_eq!(next_multiple_of_8(17), 32);
    assert_eq!(next_multiple_of_8(32), 32);
    assert_eq!(next_multiple_of_8(33), 64);
    assert_eq!(next_multiple_of_8(64), 64);
    assert_eq!(next_multiple_of_8(65), 128);
}

#[test]
fn specifier_widths() {
    assert_eq!(B1::bits(), 1);
    assert_eq!(B3::bits(), 3);
    assert_eq!(B24::bits(), 24);
    assert_eq!(B64::bits(), 64);
    assert_eq!(<bool as Specifier>::bits(), 1);
    assert_eq!(<B9 as Specifier>::BITS, 9);
    assert_eq!(<B64 as Specifier>::BITS, 64);
    assert_eq!(<bool as Specifier>::BITS, 1);
}

#[test]
fn specifier_interface_types() {
    let a: u8 = B8::to_interface_type(200);
    let b: u16 = B9::to_interface_type(300);
    let c: u32 = B24::to_interface_type(0xabcdef);
    let d: u64 = B64::to_interface_type(u64::MAX);
    assert_eq!((a, b, c, d), (200, 300, 0xabcdef, u64::MAX));
    assert!(<bool as Specifier>::to_interface_type(1));
    assert!(!<bool as Specifier>::to_interface_type(0));
    assert_eq!(<bool as Specifier>::to_int_type(true), 1);
}

// The layout of a struct with fields `a: B1, b: B3, c: B4, d: B24`: the
// fields sit at bits 0, 1, 4 and 8 of four bytes.
#[test]
fn four_byte_bit_field() {
    let mut data = [0u8; 4];
    assert_eq!(B1::get(&data, 0), 0);
    assert_eq!(B3::get(&data, 1), 0);
    assert_eq!(B4::get(&data, 4), 0);
    assert_eq!(B24::get(&data, 8), 0);
    B4::set(&mut data, 4, 14);
    assert_eq!(B1::get(&data, 0), 0);
    assert_eq!(B3::get(&data, 1), 0);
    assert_eq!(B4::get(&data, 4), 14);
    assert_eq!(B24::get(&data, 8), 0);
    B24::set(&mut data, 8, 0x12_3456);
    B1::set(&mut data, 0, 1);
    assert_eq!(B1::get(&data, 0), 1);
    assert_eq!(B4::get(&data, 4), 14);
    assert_eq!(B24::get(&data, 8), 0x12_3456);
}

#[test]
fn bool_field() {
    let mut data = [0u8; 1];
    assert!(!<bool as Specifier>::get(&data, 5));
    <bool as Specifier>::set(&mut data, 5, true);
    assert!(<bool as Specifier>::get(&data, 5));
    assert_eq!(data, [0b0000_0100]);
}

#[test]
fn typed_read_after_write_law_on_values() {
    let mut data = [0u8; 2];
    B3::set(&mut data, 6, 5);
    assert_eq!(B3::get(&data, 6), 5);
    <bool as Specifier>::set(&mut data, 12, true);
    assert!(<bool as Specifier>::get(&data, 12));
    assert!(<bool as Specifier>::to_interface_type(2));
    assert_eq!(B3::to_interface_type(0x1_0005), 5);
}
