use beach::mach_o::{CPUType, Endian, Header, WriteFault};
use beach::utils::{read_n_bytes, ByteReader, ReadFault};

#[test]
fn header_round_trip() {
    let h = Header {
        magic_number: 0xFEED_FACF,
        cpu_type: CPUType::ARM64,
        cpu_subtype: 0,
        file_type: 2,
        number_of_load_commands: 3,
        size_of_load_commands: 400,
        flags: 1,
        reserved: Some(0),
    };
    let mut bytes = Vec::new();
    h.write(&mut bytes).unwrap();
    assert_eq!(bytes.len(), 32);
    assert_eq!(&bytes[0..8], &[0xCF, 0xFA, 0xED, 0xFE, 0x0C, 0, 0, 0x01]);
    let mut reader = ByteReader::from_bytes(bytes);
    assert_eq!(Header::from_le_reader(&mut reader), Ok(h));
}

#[test]
fn short_header_fails() {
    let mut reader = ByteReader::from_bytes(vec![0xCE, 0xFA, 0xED, 0xFE, 7, 0, 0, 0]);
    assert_eq!(Header::from_le_reader(&mut reader), Err(ReadFault::UnexpectedEnd));
}

#[test]
fn byte_order_decides_writing() {
    let mut h = Header {
        magic_number: 0xFEED_FACE,
        cpu_type: CPUType::I860_BE,
        cpu_subtype: 0,
        file_type: 1,
        number_of_load_commands: 0,
        size_of_load_commands: 0,
        flags: 0,
        reserved: None,
    };
    let mut bytes = Vec::new();
    h.write(&mut bytes).unwrap();
    assert_eq!(&bytes[0..4], &[0xFE, 0xED, 0xFA, 0xCE]);
    h.cpu_type = CPUType::ARM;
    assert_eq!(h.write(&mut Vec::new()), Err(WriteFault::UnknownByteOrder));
}

#[test]
fn cpu_types() {
    assert_eq!(CPUType::from_u32(0x0100_000C), CPUType::ARM64);
    assert_eq!(CPUType::from_u32(0x0000_000F), CPUType::I860_BE);
    assert_eq!(CPUType::from_u32(3), CPUType::Unrecognized);
    assert_eq!(CPUType::from_le_bytes([7, 0, 0, 1]), CPUType::X86_64);
    assert_eq!(CPUType::from_be_bytes([1, 0, 0, 7]), CPUType::X86_64);
    assert_eq!(CPUType::X86.endianness(), Some(Endian::Little));
    assert_eq!(CPUType::VAX.endianness(), None);
    let mut r = ByteReader::from_bytes(vec![0, 0, 0, 0x12]);
    assert_eq!(CPUType::from_be_reader(&mut r), Ok(CPUType::POWERPC));
    let mut r = ByteReader::from_bytes(vec![0x12, 0, 0, 0]);
    assert_eq!(CPUType::from_le_reader(&mut r), Ok(CPUType::POWERPC));
}

#[test]
fn reading_bytes() {
    let mut r = ByteReader::from_bytes(vec![1, 2, 3]);
    assert_eq!(read_n_bytes(&mut r, 2), Ok(vec![1, 2]));
    assert_eq!(read_n_bytes(&mut r, 2), Err(ReadFault::UnexpectedEnd));
    assert_eq!(read_n_bytes(&mut r, 1), Ok(vec![3]));
}
