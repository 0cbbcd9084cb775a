use roverdb::checksum::checksum;
use roverdb::encoding::{get_bytes, get_u32, get_u64, put_bytes, put_u32, put_u64};

#[test]
fn u32_is_little_endian() {
    let mut buf = vec![0xAAu8];
    put_u32(&mut buf, 0x0102_0304);
    assert_eq!(buf, vec![0xAA, 0x04, 0x03, 0x02, 0x01]);
    assert_eq!(get_u32(&buf, 1), 0x0102_0304);
}

#[test]
fn u64_is_little_endian() {
    let mut buf = Vec::new();
    put_u64(&mut buf, 0x0102_0304_0506_0708);
    assert_eq!(buf, vec![8, 7, 6, 5, 4, 3, 2, 1]);
    assert_eq!(get_u64(&buf, 0), 0x0102_0304_0506_0708);
}

#[test]
fn integers_round_trip_at_the_extremes() {
    for x in [0u32, 1, 255, 256, 65535, 65536, u32::MAX] {
        let mut buf = Vec::new();
        put_u32(&mut buf, x);
        assert_eq!(buf.len(), 4);
        assert_eq!(get_u32(&buf, 0), x);
    }
    for x in [0u64, 1, u32::MAX as u64, u32::MAX as u64 + 1, u64::MAX] {
        let mut buf = Vec::new();
        put_u64(&mut buf, x);
        assert_eq!(buf.len(), 8);
        assert_eq!(get_u64(&buf, 0), x);
    }
}

#[test]
fn bytes_are_appended_and_copied() {
    let mut buf = vec![1u8, 2];
    put_bytes(&mut buf, &[3, 4, 5]);
    assert_eq!(buf, vec![1, 2, 3, 4, 5]);
    assert_eq!(get_bytes(&buf, 1, 3), vec![2, 3, 4]);
    assert_eq!(get_bytes(&buf, 5, 0), Vec::<u8>::new());
}

#[test]
fn checksum_is_the_byte_sum() {
    assert_eq!(checksum(&[]), 0);
    assert_eq!(checksum(&[1, 2, 3]), 6);
    assert_eq!(checksum(&[255, 255]), 510);
}

#[test]
fn checksum_wraps_at_two_to_the_32() {
    let data = vec![255u8; 16_843_010];
    assert_eq!(checksum(&data), 254);
}

#[test]
fn checksum_notices_every_single_byte_change() {
    let data: Vec<u8> = (0..64u8).collect();
    let sum = checksum(&data);
    for i in 0..data.len() {
        for delta in [1u8, 7, 128, 255] {
            let mut changed = data.clone();
            changed[i] = changed[i].wrapping_add(delta);
            assert_ne!(checksum(&changed), sum);
        }
    }
}
