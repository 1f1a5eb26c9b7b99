use angora_core::rw::{
    get_bytes_by_offsets, get_val_in_buf, insert_partial_buf, overwrite_partial_buf, read_val_from_buf,
    reverse_endian, set_bytes_by_offsets, set_val_in_buf, update_val_in_buf,
};
use angora_core::tag::TagSeg;

#[test]
fn test_buf_funcs() {
    let mut buf = vec![
        0x1c, 0x2d, 0x33, 0x34, 0x22, 0x77, 0xbe, 0xaf, 0x96, 0x10, 0x01, 0xff,
    ];
    let buf_ref = &mut buf;

    let mut val = get_val_in_buf(buf_ref, 0, 4);
    assert_eq!(val, 0x34332d1c);
    val = reverse_endian(val, 4);
    assert_eq!(val, 0x1c2d3334);

    assert_eq!(get_val_in_buf(buf_ref, 5, 1), 0x77);

    let mut val = get_val_in_buf(buf_ref, 7, 2);
    assert_eq!(val, 0x96af);
    val = reverse_endian(val, 2);
    assert_eq!(val, 0xaf96);

    update_val_in_buf(buf_ref, false, 4, 4, true, true, 1);
    let mut val = get_val_in_buf(buf_ref, 4, 4);
    val = reverse_endian(val, 4);
    assert_eq!(val, 0x2277beb0);

    update_val_in_buf(buf_ref, false, 0, 2, false, true, 0xffff);
    let val = get_val_in_buf(buf_ref, 0, 2);
    assert_eq!(val, 0x2e1c);

    update_val_in_buf(buf_ref, false, 8, 4, false, false, 0x30);
    let val = get_val_in_buf(buf_ref, 8, 4);
    assert_eq!(val, 0xff011066);
}

#[test]
fn test_partial_buf_funcs() {
    let mut buf = vec![0x12, 0x34, 0x56, 0x78];
    let buf_ref = &mut buf;

    overwrite_partial_buf(buf_ref, 0, 2, 1);
    assert_eq!(*buf_ref, vec![0x12, 0x12, 0x34, 0x78]);
}

#[test]
fn read_val_refuses_odd_sizes() {
    let buf = vec![1u8, 2, 3, 4, 5, 6, 7, 8];
    assert_eq!(read_val_from_buf(&buf, 0, 8), Ok(0x0807060504030201));
    assert_eq!(read_val_from_buf(&buf, 1, 2), Ok(0x0302));
    assert!(read_val_from_buf(&buf, 0, 3).is_err());
}

#[test]
fn set_val_writes_low_bytes_little_endian() {
    let mut buf = vec![0u8; 6];
    set_val_in_buf(&mut buf, 1, 4, 0x1122334455);
    assert_eq!(buf, vec![0, 0x55, 0x44, 0x33, 0x22, 0]);
    assert_eq!(reverse_endian(0x0102030405060708, 8), 0x0807060504030201);
    assert_eq!(reverse_endian(0xabcd, 1), 0xcd);
}

#[test]
fn update_wraps_at_width() {
    let mut buf = vec![0xffu8, 0x00];
    update_val_in_buf(&mut buf, true, 0, 1, true, false, 1);
    assert_eq!(buf, vec![0x00, 0x00]);
    update_val_in_buf(&mut buf, false, 0, 2, false, false, 1);
    assert_eq!(buf, vec![0xff, 0xff]);
}

#[test]
fn insert_and_overwrite_overlapping() {
    let mut buf = vec![1u8, 2, 3];
    insert_partial_buf(&mut buf, vec![9, 9], 1);
    assert_eq!(buf, vec![1, 9, 9, 2, 3]);
    insert_partial_buf(&mut buf, vec![7], 5);
    assert_eq!(buf, vec![1, 9, 9, 2, 3, 7]);
    overwrite_partial_buf(&mut buf, 2, 3, 0);
    assert_eq!(buf, vec![9, 2, 3, 2, 3, 7]);
}

#[test]
fn gather_and_scatter_tainted_bytes() {
    let offs = vec![
        TagSeg { sign: false, begin: 1, end: 3 },
        TagSeg { sign: false, begin: 4, end: 4 },
        TagSeg { sign: true, begin: 5, end: 6 },
    ];
    let buf = vec![10u8, 11, 12, 13, 14, 15];
    assert_eq!(get_bytes_by_offsets(&offs, &buf), vec![11, 12, 15]);
    let mut out = vec![0u8; 6];
    set_bytes_by_offsets(&offs, &vec![1, 2, 3], &mut out);
    assert_eq!(out, vec![0, 1, 2, 0, 0, 3]);
}
