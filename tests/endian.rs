use bytecursor::{BigEndian, BigEndianCursor, EndianCursor, Error, LittleEndian, LittleEndianCursor};

#[test]
fn big_endian_u32() {
    let mut c = BigEndianCursor::new([0x01u8, 0x02, 0x03, 0x04]);
    assert_eq!(c.read_u32(), Ok(0x01020304));
    assert_eq!(c.position(), 4);
}

#[test]
fn little_endian_u32() {
    let mut c = LittleEndianCursor::new([0x01u8, 0x02, 0x03, 0x04]);
    assert_eq!(c.read_u32(), Ok(0x04030201));
}

#[test]
fn i24_sign_extends_and_u24_zero_extends() {
    let mut c = EndianCursor::<BigEndian, _>::new([0xFFu8, 0xFF, 0xFF]);
    assert_eq!(c.read_i24(), Ok(-1));
    let mut c = EndianCursor::<BigEndian, _>::new([0xFFu8, 0xFF, 0xFF]);
    assert_eq!(c.read_u24(), Ok(0x00FF_FFFF));
}

#[test]
fn i24_positive_stays_positive() {
    let mut c = EndianCursor::<LittleEndian, _>::new([0xFFu8, 0xFF, 0x7F]);
    assert_eq!(c.read_i24(), Ok(0x7F_FFFF));
    let mut c = EndianCursor::<LittleEndian, _>::new([0x00u8, 0x00, 0x80]);
    assert_eq!(c.read_i24(), Ok(-0x80_0000));
}

#[test]
fn eight_and_sixteen_bit_readers() {
    let mut c = BigEndianCursor::new([0x80u8, 0x12, 0x34, 0xFF, 0xFE]);
    assert_eq!(c.read_i8(), Ok(-128));
    assert_eq!(c.read_u16(), Ok(0x1234));
    assert_eq!(c.read_i16(), Ok(-2));
    assert_eq!(c.read_u8(), Err(Error::UnexpectedEof));
    assert_eq!(c.position(), 5);
    let mut c = LittleEndianCursor::new([0xFEu8, 0xFF, 0x34, 0x12, 0x7F]);
    assert_eq!(c.read_i16(), Ok(-2));
    assert_eq!(c.read_u16(), Ok(0x1234));
    assert_eq!(c.read_u8(), Ok(0x7F));
}

#[test]
fn thirty_two_and_forty_eight_bit_readers() {
    let mut c = BigEndianCursor::new([0xFFu8, 0xFF, 0xFF, 0xFE, 0x80, 0, 0, 0, 0, 1]);
    assert_eq!(c.read_i32(), Ok(-2));
    assert_eq!(c.read_i48(), Ok(-0x7FFF_FFFF_FFFF));
    let mut c = LittleEndianCursor::new([1u8, 2, 3, 4, 5, 6, 0xFF, 0xFF, 0xFF, 0xFF, 0xFF, 0xFF]);
    assert_eq!(c.read_u48(), Ok(0x0605_0403_0201));
    assert_eq!(c.read_i48(), Ok(-1));
}

#[test]
fn sixty_four_bit_readers() {
    let bytes = [1u8, 2, 3, 4, 5, 6, 7, 8];
    let mut c = BigEndianCursor::new(bytes);
    assert_eq!(c.read_u64(), Ok(0x0102_0304_0506_0708));
    let mut c = LittleEndianCursor::new(bytes);
    assert_eq!(c.read_u64(), Ok(0x0807_0605_0403_0201));
    let mut c = BigEndianCursor::new([0x80u8, 0, 0, 0, 0, 0, 0, 0]);
    assert_eq!(c.read_i64(), Ok(i64::MIN));
    let mut c = LittleEndianCursor::new([0xFFu8; 8]);
    assert_eq!(c.read_u64(), Ok(u64::MAX));
}

#[test]
fn one_twenty_eight_bit_readers() {
    let mut bytes = [0u8; 16];
    bytes[0] = 0x80;
    bytes[15] = 0x01;
    let mut c = BigEndianCursor::new(bytes);
    assert_eq!(c.read_i128(), Ok(i128::MIN + 1));
    let mut c = LittleEndianCursor::new(bytes);
    assert_eq!(c.read_u128(), Ok((1u128 << 120) | 0x80));
    let mut c = BigEndianCursor::new([0xFFu8; 16]);
    assert_eq!(c.read_i128(), Ok(-1));
}

#[test]
fn variable_width_readers() {
    let mut c = BigEndianCursor::new([0x12u8, 0x34, 0x56, 0xFF, 0x00]);
    assert_eq!(c.read_uint(3), Ok(0x123456));
    assert_eq!(c.read_int(2), Ok(-256));
    let mut c = LittleEndianCursor::new([0x12u8, 0x34, 0x56, 0xFF, 0x00]);
    assert_eq!(c.read_uint(3), Ok(0x563412));
    assert_eq!(c.read_int(2), Ok(0xFF));
    let mut c = LittleEndianCursor::new([0xAAu8; 11]);
    assert_eq!(c.read_uint128(11), Ok(0xAAAA_AAAA_AAAA_AAAA_AAAA_AA));
    let mut c = BigEndianCursor::new([0xFFu8; 11]);
    assert_eq!(c.read_int128(11), Ok(-1));
}

#[test]
fn short_decode_fails_without_consuming() {
    let mut c = BigEndianCursor::new([1u8, 2, 3]);
    assert_eq!(c.read_u32(), Err(Error::UnexpectedEof));
    assert_eq!(c.position(), 0);
    assert_eq!(c.read_uint(4), Err(Error::UnexpectedEof));
    assert_eq!(c.read_int128(4), Err(Error::UnexpectedEof));
    assert_eq!(c.position(), 0);
    assert_eq!(c.read_u24(), Ok(0x010203));
    assert_eq!(c.get_ref().position(), 3);
}
