use bootcore::elf::endiannes::Endianness;

#[test]
fn test_read_u16() {
    let value = [0x01, 0x02];
    assert_eq!(Endianness::BigEndian.read_u16(value), 0x102);
    assert_eq!(Endianness::LittleEndian.read_u16(value), 0x201);
}

#[test]
fn test_read_u32() {
    let value = [0x01, 0x02, 0x03, 0x04];
    assert_eq!(Endianness::BigEndian.read_u32(value), 0x1020304);
    assert_eq!(Endianness::LittleEndian.read_u32(value), 0x4030201);
}

#[test]
fn test_read_u64() {
    let value = [0x01, 0x02, 0x03, 0x04, 0x05, 0x06, 0x07, 0x08];
    assert_eq!(Endianness::BigEndian.read_u64(value), 0x0102030405060708);
    assert_eq!(Endianness::LittleEndian.read_u64(value), 0x0807060504030201);
}
