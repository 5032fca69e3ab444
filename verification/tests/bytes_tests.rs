use solana_bridge::bytes::{read_array32, read_u64_be, read_u64_le, write_bytes};

#[test]
fn little_and_big_endian_reads() {
    let b = [1u8, 2, 3, 4, 5, 6, 7, 8];
    assert_eq!(read_u64_le(&b), 0x0807060504030201);
    assert_eq!(read_u64_be(&b), 0x0102030405060708);
    assert_eq!(read_u64_le(&[0xff; 8]), u64::MAX);
    assert_eq!(read_u64_be(&[0, 0, 0, 0, 0, 0, 0x01, 0x00]), 256);
}

#[test]
fn array_copy_and_write() {
    let src: Vec<u8> = (0..40).collect();
    let a = read_array32(&src);
    assert_eq!(a[31], 31);
    let mut dst = [9u8; 6];
    write_bytes(&mut dst, 2, &[1, 2]);
    assert_eq!(dst, [9, 9, 1, 2, 9, 9]);
}
