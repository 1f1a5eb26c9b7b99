use angora_core::mut_input::{Endian, MutInput};
use angora_core::tag::TagSeg;

fn seg(sign: bool, begin: u32, end: u32) -> TagSeg {
    TagSeg { sign, begin, end }
}

#[test]
fn from_builds_segments() {
    let input = vec![1u8, 2, 3, 4, 5, 6, 7];
    let offs = vec![seg(false, 0, 4), seg(true, 4, 7), seg(false, 6, 9)];
    let m = MutInput::from(&offs, &input, false);
    // 4 bytes -> one segment, 3 bytes -> three, 3 bytes past the end -> three
    assert_eq!(m.len(), 7);
    assert_eq!(m.val_len(), 10);
    assert_eq!(m.get_value(), vec![1, 2, 3, 4, 5, 6, 7, 7, 0, 0]);
    assert_eq!(m.get_entry(0), 0x04030201);
    assert_eq!(m.get_entry_len(1), 1);
    let offsets: Vec<usize> = m.get_meta().iter().map(|x| x.offset()).collect();
    assert_eq!(offsets, vec![0, 4, 5, 6, 7, 8, 9]);
    assert!(m.get_meta()[0].is_le());
    let be = MutInput::from(&offs, &input, true);
    assert!(be.get_meta()[0].is_be());
    assert_eq!(be.get_meta()[0].endian, Endian::BigEndian);
}

#[test]
fn nth_val_reads_sign_and_endian() {
    let input = vec![0xffu8, 0xfe, 0x01, 0x80];
    let m = MutInput::from(&vec![seg(true, 0, 2), seg(false, 2, 4)], &input, false);
    let a = m.nth_val(0);
    assert_eq!(a.to_i128(), -257);
    assert_eq!((a.min(), a.max()), (-32768, 32767));
    let b = m.nth_val(1);
    assert_eq!(b.to_i128(), 0x8001);
    assert_eq!((b.min(), b.max()), (0, 65535));
    let be = MutInput::from(&vec![seg(false, 2, 4)], &input, true);
    assert_eq!(be.nth_val(0).to_i128(), 0x0180);
}

#[test]
fn set_then_read_is_clamped() {
    let input = vec![0u8; 4];
    let mut m = MutInput::from(&vec![seg(true, 0, 1), seg(false, 1, 3)], &input, false);
    assert_eq!(m.set_nth_(0, -5), -5);
    assert_eq!(m.nth_val(0).to_i128(), -5);
    assert_eq!(m.set_nth_(0, 1000), 127);
    assert_eq!(m.nth_val(0).to_i128(), 127);
    assert_eq!(m.set_nth_(1, -3), 0);
    assert_eq!(m.nth_val(1).to_i128(), 0);
    assert_eq!(m.set_nth_(1, 0x1234), 0x1234);
    assert_eq!(m.get_value(), vec![127, 0x34, 0x12]);
}

#[test]
fn add_then_sub_restores_bytes() {
    let input = vec![10u8, 0x34, 0x12, 0];
    let mut m = MutInput::from(&vec![seg(false, 0, 1), seg(false, 1, 3)], &input, false);
    let before = m.get_value();
    assert_eq!(m.add_nth(1, 100), 100);
    assert_eq!(m.nth_val(1).to_i128(), 0x1234 + 100);
    assert_eq!(m.add_nth(1, -100), -100);
    assert_eq!(m.get_value(), before);
}

#[test]
fn add_halves_until_it_fits() {
    let input = vec![250u8];
    let mut m = MutInput::from(&vec![seg(false, 0, 1)], &input, false);
    // 40 and 20 overflow, 10 does not fit either, 5 fits.
    assert_eq!(m.add_nth(0, 40), 5);
    assert_eq!(m.nth_val(0).to_i128(), 255);
    assert_eq!(m.add_nth(0, 1), 0);
    let mut s = MutInput::from(&vec![seg(true, 0, 1)], &vec![0x80u8], false);
    // -128 + 255 would fit the range, but a step of 255 is not a value of i8.
    assert_eq!(s.add_nth(0, 255), 127);
    assert_eq!(s.nth_val(0).to_i128(), -1);
    assert_eq!(s.set_nth(0, 20), 20);
}

#[test]
fn lsb_steps_and_bitflip() {
    let mut m = MutInput::from(&vec![seg(false, 0, 1), seg(false, 1, 2)], &vec![0u8, 255], false);
    assert!(m.inc_lsb(&vec![0, 1]));
    assert_eq!(m.get_value(), vec![1, 255]);
    assert!(m.dec_lsb(&vec![0, 1]));
    assert_eq!(m.get_value(), vec![1, 254]);
    let mut top = MutInput::from(&vec![seg(false, 0, 1)], &vec![255u8], false);
    assert!(!top.inc_lsb(&vec![0]));
    m.bitflip(0);
    assert_eq!(m.get_value(), vec![0x81, 254]);
    m.bitflip(15);
    assert_eq!(m.get_value(), vec![0x81, 255]);
}

#[test]
fn split_and_write_back() {
    let input = vec![1u8, 2, 3, 4, 5];
    let offs = vec![seg(false, 1, 5)];
    let mut m = MutInput::from(&offs, &input, false);
    m.split_meta(0);
    assert_eq!(m.len(), 4);
    assert_eq!(m.get_meta()[2].endian, Endian::Split);
    assert_eq!(m.get_meta()[2].offset(), 2);
    m.set(3, 9);
    m.update(0, true, 1);
    let mut out = vec![0u8; 2];
    m.write_to_input(&offs, &mut out);
    assert_eq!(out, vec![0, 3, 3, 4, 9]);
    m.assign(&vec![7, 7, 7, 7, 7, 7]);
    assert_eq!(m.get_value(), vec![7, 7, 7, 7]);
    assert!(m.is_value_identical(&vec![7, 7, 7, 7]));
}
