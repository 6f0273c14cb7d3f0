use soundtransfer::le::{get_le, put_le};

#[test]
fn numbers_are_little_endian() {
    let mut buf = [0xAAu8; 10];
    put_le(&mut buf, 1, 0x0102_0304_0506_0708, 8);
    assert_eq!(buf, [0xAA, 8, 7, 6, 5, 4, 3, 2, 1, 0xAA]);
    assert_eq!(get_le(&buf, 1, 8), 0x0102_0304_0506_0708);
    assert_eq!(get_le(&buf, 1, 4), 0x0506_0708);
    put_le(&mut buf, 0, 0x1234, 2);
    assert_eq!(get_le(&buf, 0, 2), 0x1234);
}
