use bootcore::elf::endiannes::Endianness;
use bootcore::elf::header::{FileType, Header, HeaderLocations};
use bootcore::elf::identification::{Class, Identification};
use bootcore::elf::machine::Machine;
use bootcore::elf::segment::{Segment, SegmentFlags, SegmentType};
use bootcore::elf::{Elf, ElfError};

fn ident(class: u8, data: u8, version: u8) -> Vec<u8> {
    let mut bytes = vec![0x7f, b'E', b'L', b'F', class, data, version];
    bytes.resize(16, 0);
    bytes
}

/// A 64-bit little-endian image with one program header and four bytes of
/// content.
fn image64() -> Vec<u8> {
    let mut bytes = ident(2, 1, 1);
    bytes.extend_from_slice(&2u16.to_le_bytes()); // e_type
    bytes.extend_from_slice(&0xf3u16.to_le_bytes()); // e_machine
    bytes.extend_from_slice(&1u32.to_le_bytes()); // e_version
    bytes.extend_from_slice(&0x8020_0000u64.to_le_bytes()); // e_entry
    bytes.extend_from_slice(&64u64.to_le_bytes()); // e_phoff
    bytes.extend_from_slice(&0u64.to_le_bytes()); // e_shoff
    bytes.extend_from_slice(&0u32.to_le_bytes()); // e_flags
    bytes.extend_from_slice(&64u16.to_le_bytes()); // e_ehsize
    bytes.extend_from_slice(&56u16.to_le_bytes()); // e_phentsize
    bytes.extend_from_slice(&1u16.to_le_bytes()); // e_phnum
    bytes.extend_from_slice(&[0u8; 6]);
    assert_eq!(bytes.len(), 64);
    bytes.extend_from_slice(&1u32.to_le_bytes()); // p_type
    bytes.extend_from_slice(&5u32.to_le_bytes()); // p_flags
    bytes.extend_from_slice(&104u64.to_le_bytes()); // p_offset, from the end of the identification
    bytes.extend_from_slice(&0xffff_ffff_8020_0000u64.to_le_bytes()); // p_vaddr
    bytes.extend_from_slice(&0x8020_0000u64.to_le_bytes()); // p_paddr
    bytes.extend_from_slice(&4u64.to_le_bytes()); // p_filesz
    bytes.extend_from_slice(&0x1000u64.to_le_bytes()); // p_memsz
    bytes.extend_from_slice(&0x1000u64.to_le_bytes()); // p_align
    assert_eq!(bytes.len(), 120);
    bytes.extend_from_slice(&[0xde, 0xad, 0xbe, 0xef]);
    bytes
}

/// A 32-bit big-endian image with two program headers.
fn image32() -> Vec<u8> {
    let mut bytes = ident(1, 2, 1);
    bytes.extend_from_slice(&3u16.to_be_bytes()); // e_type
    bytes.extend_from_slice(&0x28u16.to_be_bytes()); // e_machine
    bytes.extend_from_slice(&1u32.to_be_bytes()); // e_version
    bytes.extend_from_slice(&0u32.to_be_bytes()); // e_entry
    bytes.extend_from_slice(&52u32.to_be_bytes()); // e_phoff
    bytes.extend_from_slice(&0u32.to_be_bytes()); // e_shoff
    bytes.extend_from_slice(&0u32.to_be_bytes()); // e_flags
    bytes.extend_from_slice(&52u16.to_be_bytes()); // e_ehsize
    bytes.extend_from_slice(&32u16.to_be_bytes()); // e_phentsize
    bytes.extend_from_slice(&2u16.to_be_bytes()); // e_phnum
    bytes.extend_from_slice(&[0u8; 6]);
    assert_eq!(bytes.len(), 52);
    for (kind, flags) in [(6u32, 4u32), (0x7000_0000, 2)] {
        bytes.extend_from_slice(&kind.to_be_bytes()); // p_type
        bytes.extend_from_slice(&0u32.to_be_bytes()); // p_offset
        bytes.extend_from_slice(&0x1000u32.to_be_bytes()); // p_vaddr
        bytes.extend_from_slice(&0x2000u32.to_be_bytes()); // p_paddr
        bytes.extend_from_slice(&2u32.to_be_bytes()); // p_filesz
        bytes.extend_from_slice(&0x30u32.to_be_bytes()); // p_memsz
        bytes.extend_from_slice(&flags.to_be_bytes()); // p_flags
        bytes.extend_from_slice(&4u32.to_be_bytes()); // p_align
    }
    bytes.push(0);
    bytes
}

#[test]
fn reads_at_an_offset_follow_the_byte_order() {
    let bytes = [0, 1, 2, 3, 4, 5, 6, 7, 8, 9];
    assert_eq!(Endianness::BigEndian.read_u16_at(&bytes, 1), 0x0102);
    assert_eq!(Endianness::LittleEndian.read_u16_at(&bytes, 1), 0x0201);
    assert_eq!(Endianness::BigEndian.read_u32_at(&bytes, 2), 0x0203_0405);
    assert_eq!(Endianness::LittleEndian.read_u32_at(&bytes, 2), 0x0504_0302);
    assert_eq!(Endianness::BigEndian.read_u64_at(&bytes, 2), 0x0203_0405_0607_0809);
    assert_eq!(Endianness::LittleEndian.read_u64_at(&bytes, 2), 0x0908_0706_0504_0302);
    assert_eq!(Endianness::BigEndian.read_u32([0xff, 0xff, 0xff, 0xff]), u32::MAX);
    assert_eq!(Endianness::LittleEndian.read_u64([0xff; 8]), u64::MAX);
    assert_eq!(Endianness::BigEndian.read_u16([0x80, 0]), 0x8000);
}

#[test]
fn identification_tells_class_order_and_version() {
    let bytes = image64();
    let identification = Identification::from_bytes(&bytes).unwrap();
    assert!(identification.is_valid());
    assert_eq!(identification.class(), Ok(Class::Class64));
    assert_eq!(identification.endiannes(), Ok(Endianness::LittleEndian));
    assert_eq!(identification.version(), 1);
    assert_eq!(identification.magic_number(), &[0x7f, 0x45, 0x4c, 0x46]);
    let bytes = image32();
    let identification = Identification::from_bytes(&bytes).unwrap();
    assert_eq!(identification.class(), Ok(Class::Class32));
    assert_eq!(identification.endiannes(), Ok(Endianness::BigEndian));
}

#[test]
fn identification_that_is_none_is_refused() {
    assert_eq!(
        Identification::from_bytes(&[0x7f, b'E', b'L']).err(),
        Some(ElfError::InvaildSize { minimal: 16, actual: 3 })
    );
    assert_eq!(
        Elf::from_bytes(&[0u8; 15]).err(),
        Some(ElfError::InvaildSize { minimal: 16, actual: 15 })
    );
    let mut bytes = image64();
    bytes[1] = b'F';
    assert!(!Identification::from_bytes(&bytes).unwrap().is_valid());
    assert_eq!(Elf::from_bytes(&bytes).err(), Some(ElfError::InvaildIdentification));
    let mut bytes = image64();
    bytes[6] = 2;
    assert_eq!(Elf::from_bytes(&bytes).err(), Some(ElfError::InvaildIdentification));
    let mut bytes = image64();
    bytes[4] = 3;
    let identification = Identification::from_bytes(&bytes).unwrap();
    assert_eq!(identification.class(), Err(ElfError::InvaildValue));
    assert_eq!(Elf::from_bytes(&bytes).err(), Some(ElfError::InvaildValue));
    let mut bytes = image64();
    bytes[5] = 0;
    let identification = Identification::from_bytes(&bytes).unwrap();
    assert_eq!(identification.endiannes(), Err(ElfError::InvaildValue));
    assert_eq!(Elf::from_bytes(&bytes).err(), Some(ElfError::InvaildValue));
}

#[test]
fn header_that_is_cut_short_is_refused() {
    let bytes = image64();
    assert_eq!(
        Elf::from_bytes(&bytes[..63]).err(),
        Some(ElfError::InvaildSize { minimal: 0x30, actual: 47 })
    );
    assert!(Elf::from_bytes(&bytes[..64]).is_ok());
    let bytes = image32();
    assert_eq!(
        Elf::from_bytes(&bytes[..20]).err(),
        Some(ElfError::InvaildSize { minimal: 0x24, actual: 4 })
    );
    assert_eq!(Header::size(Class::Class32), 0x24);
    assert_eq!(Header::size(Class::Class64), 0x30);
}

#[test]
fn header_fields_of_a_64_bit_image() {
    let bytes = image64();
    let identification = Identification::from_bytes(&bytes).unwrap();
    let header = Header::from_bytes(&bytes[16..], &identification).unwrap();
    assert_eq!(header.file_type(), FileType::Executable);
    assert_eq!(header.machine(), Machine::from_id(0xf3));
    assert_eq!(header.machine().name(), Some("RISC-V"));
    assert_eq!(header.version(), 1);
    assert_eq!(header.entrypoint(), Some(0x8020_0000));
    assert_eq!(header.word(0), 2);
    assert_eq!(header.dword(4), 1);
    assert_eq!(header.qword(8), 0x8020_0000);
    assert_eq!(header.addr(16), 64);
    assert_eq!(header.offset(8, 1), 16);
    assert_eq!(header.offset(14, 3), 38);
    assert!(header.can_read_segments());
    assert_eq!(
        header.segment_header_locations(),
        HeaderLocations { offset: 48, size: 56, num: 1 }
    );
}

#[test]
fn header_fields_of_a_32_bit_image() {
    let bytes = image32();
    let identification = Identification::from_bytes(&bytes).unwrap();
    let header = Header::from_bytes(&bytes[16..], &identification).unwrap();
    assert_eq!(header.file_type(), FileType::Shared);
    assert_eq!(header.machine().id(), 0x28);
    assert_eq!(header.machine().name(), Some("ARM"));
    assert_eq!(header.entrypoint(), None);
    assert_eq!(header.offset(8, 1), 12);
    assert_eq!(header.offset(16, 3), 28);
    assert_eq!(
        header.segment_header_locations(),
        HeaderLocations { offset: 36, size: 32, num: 2 }
    );
    let locations = header.segment_header_locations();
    assert_eq!(locations.slice_loc(0), 36);
    assert_eq!(locations.slice_loc(2), 100);
    assert_eq!(locations.slices(), vec![(36, 68), (68, 100)]);
}

#[test]
fn file_types_and_machines() {
    for (id, kind) in [
        (1u16, FileType::Relocatable),
        (2, FileType::Executable),
        (3, FileType::Shared),
        (4, FileType::Core),
        (0, FileType::Other(0)),
        (5, FileType::Other(5)),
        (0xffff, FileType::Other(0xffff)),
    ] {
        let mut bytes = image64();
        bytes[16..18].copy_from_slice(&id.to_le_bytes());
        let identification = Identification::from_bytes(&bytes).unwrap();
        let header = Header::from_bytes(&bytes[16..], &identification).unwrap();
        assert_eq!(header.file_type(), kind);
    }
    assert_eq!(Machine::from_id(0x03).name(), Some("x86"));
    assert_eq!(Machine::from_id(0x3e).name(), Some("x86_64"));
    assert_eq!(Machine::from_id(0xb7).name(), Some("AArch64"));
    assert_eq!(Machine::from_id(0x1234).name(), None);
    assert_eq!(Machine::from_id(7), Machine(7));
}

#[test]
fn segments_of_a_64_bit_image() {
    let bytes = image64();
    let elf = Elf::from_bytes(&bytes).unwrap();
    let segments = elf.segments();
    assert_eq!(segments.len(), 1);
    let segment = &segments[0];
    assert!(segment.is_complete());
    assert_eq!(segment.segment_type(), SegmentType::Load);
    assert_eq!(segment.vaddr(), 0xffff_ffff_8020_0000);
    assert_eq!(segment.paddr(), 0x8020_0000);
    // in a 64-bit image the size in memory is read where the size in the file stands
    assert_eq!(segment.memory_size(), 4);
    assert!(segment.executable());
    assert!(!segment.writeable());
    assert!(segment.readable());
    assert_eq!(segment.flags(), SegmentFlags::from_bits_retain(5));
    assert!(segment.can_read_data());
    assert_eq!(segment.data(), &[0xde, 0xad, 0xbe, 0xef]);
    assert_eq!(segment.read_u32(0x18, 0x04), 5);
    assert_eq!(segment.read_usize(0x04, 0x08), 104);
}

#[test]
fn segments_of_a_32_bit_image() {
    let bytes = image32();
    let elf = Elf::from_bytes(&bytes).unwrap();
    let segments = elf.segments();
    assert_eq!(segments.len(), 2);
    assert_eq!(segments[0].segment_type(), SegmentType::ProgramHeader);
    assert_eq!(segments[1].segment_type(), SegmentType::Other(0x7000_0000));
    assert_eq!(segments[0].vaddr(), 0x1000);
    assert_eq!(segments[0].paddr(), 0x2000);
    assert_eq!(segments[0].memory_size(), 0x30);
    assert!(segments[0].readable() && !segments[0].writeable() && !segments[0].executable());
    assert!(segments[1].writeable() && !segments[1].readable());
    assert_eq!(segments[1].data(), &[0, 3]);
}

#[test]
fn segment_types() {
    for (id, kind) in [
        (0u32, SegmentType::Unused),
        (1, SegmentType::Load),
        (2, SegmentType::Dynamic),
        (3, SegmentType::Interpreter),
        (4, SegmentType::Note),
        (5, SegmentType::Other(5)),
        (6, SegmentType::ProgramHeader),
        (7, SegmentType::TLS),
        (8, SegmentType::Other(8)),
    ] {
        let mut header = vec![0u8; 0x28];
        header[..4].copy_from_slice(&id.to_be_bytes());
        let segment = Segment::from_bytes(&header, &[], Class::Class64, Endianness::BigEndian);
        assert_eq!(segment.segment_type(), kind);
    }
}

#[test]
fn segment_flags_hold_their_bits() {
    let flags = SegmentFlags::from_bits_retain(0x6);
    assert!(flags.contains(SegmentFlags::WRITEABLE));
    assert!(flags.contains(SegmentFlags::READABLE));
    assert!(!flags.contains(SegmentFlags::EXECUTABLE));
    assert!(flags.contains(SegmentFlags::WRITEABLE | SegmentFlags::READABLE));
    assert!(!flags.contains(SegmentFlags::WRITEABLE | SegmentFlags::EXECUTABLE));
    assert!(flags.contains(0));
    assert_eq!(SegmentFlags::from_bits_retain(0xf000_0001).bits, 0xf000_0001);
}

#[test]
fn what_cannot_be_read_is_told_beforehand() {
    // the table of program headers lies before the end of the identification
    let mut bytes = image64();
    bytes[32..40].copy_from_slice(&8u64.to_le_bytes());
    let elf_bytes = bytes.clone();
    let identification = Identification::from_bytes(&elf_bytes).unwrap();
    let header = Header::from_bytes(&elf_bytes[16..], &identification).unwrap();
    assert!(!header.can_read_segments());
    // the table runs to the last byte of the image, with no byte behind it
    let bytes = image64();
    let identification = Identification::from_bytes(&bytes).unwrap();
    let header = Header::from_bytes(&bytes[16..120], &identification).unwrap();
    assert!(!header.can_read_segments());
    let header = Header::from_bytes(&bytes[16..121], &identification).unwrap();
    assert!(header.can_read_segments());
    // more bytes of program headers than a 16-bit number holds
    let mut bytes = image64();
    bytes[54..56].copy_from_slice(&0x100u16.to_le_bytes());
    bytes[56..58].copy_from_slice(&0x100u16.to_le_bytes());
    bytes.resize(0x20000, 0);
    let identification = Identification::from_bytes(&bytes).unwrap();
    let header = Header::from_bytes(&bytes[16..], &identification).unwrap();
    assert!(!header.can_read_segments());
    // no program header at all
    let mut bytes = image64();
    bytes[56..58].copy_from_slice(&0u16.to_le_bytes());
    let elf = Elf::from_bytes(&bytes[..64]).unwrap();
    assert!(elf.segments().is_empty());
    // a program header that is cut short, and content beyond the image
    let short = vec![0u8; 0x27];
    let segment = Segment::from_bytes(&short, &[], Class::Class64, Endianness::LittleEndian);
    assert!(!segment.is_complete());
    let segment = Segment::from_bytes(&short, &[], Class::Class32, Endianness::LittleEndian);
    assert!(segment.is_complete());
    let bytes = image64();
    let elf = Elf::from_bytes(&bytes[..123]).unwrap();
    assert!(!elf.segments()[0].can_read_data());
}

#[test]
fn checked_reads_fail_beyond_the_bytes() {
    let bytes = [1u8, 2, 3, 4, 5, 6, 7, 8, 9];
    let be = Endianness::BigEndian;
    let le = Endianness::LittleEndian;
    assert_eq!(be.checked_read_u16(&bytes, 7), Some(0x0809));
    assert_eq!(le.checked_read_u16(&bytes, 7), Some(0x0908));
    assert_eq!(be.checked_read_u16(&bytes, 8), None);
    assert_eq!(be.checked_read_u32(&bytes, 5), Some(0x0607_0809));
    assert_eq!(le.checked_read_u32(&bytes, 0), Some(0x0403_0201));
    assert_eq!(be.checked_read_u32(&bytes, 6), None);
    assert_eq!(be.checked_read_u64(&bytes, 1), Some(0x0203_0405_0607_0809));
    assert_eq!(le.checked_read_u64(&bytes, 2), None);
    assert_eq!(be.checked_read_u64(&bytes, usize::MAX), None);
    assert_eq!(le.checked_read_u16(&[], 0), None);
    assert_eq!(le.checked_read_u16(&bytes, usize::MAX - 1), None);
}

#[test]
fn a_field_needs_only_its_own_bytes() {
    let mut header = vec![0u8; 0x10];
    header[..4].copy_from_slice(&1u32.to_le_bytes());
    header[8..12].copy_from_slice(&0x1234u32.to_le_bytes());
    header[12..16].copy_from_slice(&0x5678u32.to_le_bytes());
    let segment = Segment::from_bytes(&header, &[], Class::Class32, Endianness::LittleEndian);
    assert!(!segment.is_complete());
    assert!(segment.holds_u32(0, 0));
    assert_eq!(segment.segment_type(), SegmentType::Load);
    assert!(segment.holds_usize(0x08, 0x10));
    assert_eq!(segment.vaddr(), 0x1234);
    assert!(segment.holds_usize(0x0c, 0x18));
    assert_eq!(segment.paddr(), 0x5678);
    assert!(!segment.holds_usize(0x10, 0x20));
    assert!(!segment.holds_u32(0x18, 0x04));
    let wide = Segment::from_bytes(&header, &[], Class::Class64, Endianness::LittleEndian);
    assert!(wide.holds_u32(0x18, 0x04));
    assert!(wide.holds_usize(0x04, 0x08));
    assert!(!wide.holds_usize(0x08, 0x10));
    assert!(!wide.holds_usize(0, usize::MAX));
    assert_eq!(wide.read_usize(0x04, 0x08), 0x5678_0000_1234);
}
