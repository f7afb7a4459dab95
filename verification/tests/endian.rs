use rustsocket::endian::{push_be, read_be};

#[test]
fn read_be_of_nothing_is_zero() {
    assert_eq!(read_be(&[]), 0);
}

#[test]
fn read_be_reads_most_significant_byte_first() {
    assert_eq!(read_be(&[0x01, 0x02]), 258);
    assert_eq!(read_be(&[0x00, 0x7e]), 126);
    assert_eq!(read_be(&[0xff, 0xff]), 65535);
}

#[test]
fn read_be_of_eight_bytes() {
    assert_eq!(read_be(&[0, 0, 0, 0, 0, 1, 0, 0]), 65536);
    assert_eq!(read_be(&[0xff; 8]), u64::MAX);
    assert_eq!(
        read_be(&[0x01, 0x23, 0x45, 0x67, 0x89, 0xab, 0xcd, 0xef]),
        0x0123_4567_89ab_cdef
    );
}

#[test]
fn push_be_appends_after_what_is_there() {
    let mut out = vec![9u8];
    push_be(&mut out, 0x1234, 2);
    assert_eq!(out, vec![9, 0x12, 0x34]);
}

#[test]
fn push_be_of_eight_bytes() {
    let mut out = Vec::new();
    push_be(&mut out, 65536, 8);
    assert_eq!(out, vec![0, 0, 0, 0, 0, 1, 0, 0]);
}

#[test]
fn push_be_keeps_the_low_bytes_only() {
    let mut out = Vec::new();
    push_be(&mut out, 0x0001_0203, 2);
    assert_eq!(out, vec![0x02, 0x03]);
    let mut none = Vec::new();
    push_be(&mut none, 77, 0);
    assert_eq!(none, Vec::<u8>::new());
}

#[test]
fn push_be_then_read_be_gives_the_number() {
    for value in [0u64, 1, 255, 256, 65535, 65536, u64::MAX] {
        let mut out = Vec::new();
        push_be(&mut out, value, 8);
        assert_eq!(out.len(), 8);
        assert_eq!(read_be(&out), value);
    }
}
