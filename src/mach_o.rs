use vstd::prelude::*;

use crate::utils::{read_n_bytes, ByteReader, ReadFault};

verus! {

/// The byte order of a processor.
#[derive(Debug, Clone, Copy, PartialEq, Eq, Structural)]
pub enum Endian {
    Big,
    Little,
    /// Either order, chosen at run time.
    Either,
}

/// The processor type field of a Mach-O header.
#[derive(Debug, Clone, Copy, PartialEq, Eq, Structural)]
pub enum CPUType {
    VAX,
    ROMP,
    NS32032,
    NS32332,
    MC680X0,
    X86,
    X86_64,
    MIPS,
    NS32352,
    MC98000,
    HP_PA,
    ARM,
    ARM64,
    MC88000,
    SPARC,
    I860_BE,
    I860_LE,
    RS_6000,
    POWERPC,
    /// A value that this library does not know.
    Unrecognized,
}

/// The kind of file that a Mach-O header describes.
#[derive(Debug, Clone, Copy, PartialEq, Eq, Structural)]
pub enum FileType {
    RelocatableObjects,
    DemandPagedExecutable,
    FixedLibrary,
    CoreFile,
    PreloadedExecutable,
    DynamicLibrary,
    DynamicLinkEditor,
    DynamicallyBoundBundle,
    SharedLibraryStub,
    DebugCompanion,
    X86_64Kexts,
    MultiMachO,
    Unrecognized,
}

/// The code of each processor type (`Unrecognized` has none and is written as zero).
pub open spec fn cpu_code(c: CPUType) -> u32 {
    match c {
        CPUType::VAX => 0x0000_0001,
        CPUType::ROMP => 0x0000_0002,
        CPUType::NS32032 => 0x0000_0004,
        CPUType::NS32332 => 0x0000_0005,
        CPUType::MC680X0 => 0x0000_0006,
        CPUType::X86 => 0x0000_0007,
        CPUType::X86_64 => 0x0100_0007,
        CPUType::MIPS => 0x0000_0008,
        CPUType::NS32352 => 0x0000_0009,
        CPUType::MC98000 => 0x0000_000A,
        CPUType::HP_PA => 0x0000_000B,
        CPUType::ARM => 0x0000_000C,
        CPUType::ARM64 => 0x0100_000C,
        CPUType::MC88000 => 0x0000_000D,
        CPUType::SPARC => 0x0000_000E,
        CPUType::I860_BE => 0x0000_000F,
        CPUType::I860_LE => 0x0000_0010,
        CPUType::RS_6000 => 0x0000_0011,
        CPUType::POWERPC => 0x0000_0012,
        CPUType::Unrecognized => 0,
    }
}

/// The processor type with code `v`, or `Unrecognized`.
pub open spec fn cpu_of(v: u32) -> CPUType {
    if v == 0x0000_0001 {
        CPUType::VAX
    } else if v == 0x0000_0002 {
        CPUType::ROMP
    } else if v == 0x0000_0004 {
        CPUType::NS32032
    } else if v == 0x0000_0005 {
        CPUType::NS32332
    } else if v == 0x0000_0006 {
        CPUType::MC680X0
    } else if v == 0x0000_0007 {
        CPUType::X86
    } else if v == 0x0100_0007 {
        CPUType::X86_64
    } else if v == 0x0000_0008 {
        CPUType::MIPS
    } else if v == 0x0000_0009 {
        CPUType::NS32352
    } else if v == 0x0000_000A {
        CPUType::MC98000
    } else if v == 0x0000_000B {
        CPUType::HP_PA
    } else if v == 0x0000_000C {
        CPUType::ARM
    } else if v == 0x0100_000C {
        CPUType::ARM64
    } else if v == 0x0000_000D {
        CPUType::MC88000
    } else if v == 0x0000_000E {
        CPUType::SPARC
    } else if v == 0x0000_000F {
        CPUType::I860_BE
    } else if v == 0x0000_0010 {
        CPUType::I860_LE
    } else if v == 0x0000_0011 {
        CPUType::RS_6000
    } else if v == 0x0000_0012 {
        CPUType::POWERPC
    } else {
        CPUType::Unrecognized
    }
}

/// The number that four bytes write, least significant first.
pub open spec fn le_u32(b: Seq<u8>) -> u32 {
    (b[0] as int + 256 * b[1] as int + 65536 * b[2] as int + 16777216 * b[3] as int) as u32
}

/// The number that four bytes write, most significant first.
pub open spec fn be_u32(b: Seq<u8>) -> u32 {
    (b[3] as int + 256 * b[2] as int + 65536 * b[1] as int + 16777216 * b[0] as int) as u32
}

/// The four bytes of `v`, least significant first.
pub open spec fn le_bytes_u32(v: u32) -> Seq<u8> {
    seq![(v % 256) as u8, ((v / 256) % 256) as u8, ((v / 65536) % 256) as u8, (v / 16777216) as u8]
}

/// The four bytes of `v`, most significant first.
pub open spec fn be_bytes_u32(v: u32) -> Seq<u8> {
    seq![(v / 16777216) as u8, ((v / 65536) % 256) as u8, ((v / 256) % 256) as u8, (v % 256) as u8]
}

fn u32_from_le(b: &Vec<u8>) -> (r: u32)
    requires
        b.len() == 4,
    ensures
        r == le_u32(b@),
{
    b[0] as u32 + 256 * b[1] as u32 + 65536 * b[2] as u32 + 16777216 * b[3] as u32
}

fn u32_from_be(b: &Vec<u8>) -> (r: u32)
    requires
        b.len() == 4,
    ensures
        r == be_u32(b@),
{
    b[3] as u32 + 256 * b[2] as u32 + 65536 * b[1] as u32 + 16777216 * b[0] as u32
}

/// Appends the four bytes of `v`, least significant first.
fn push_u32_le(out: &mut Vec<u8>, v: u32)
    ensures
        final(out)@ == old(out)@ + le_bytes_u32(v),
{
    out.push((v % 256) as u8);
    out.push(((v / 256) % 256) as u8);
    out.push(((v / 65536) % 256) as u8);
    out.push((v / 16777216) as u8);
    assert(final(out)@ =~= old(out)@ + le_bytes_u32(v));
}

/// Appends the four bytes of `v`, most significant first.
fn push_u32_be(out: &mut Vec<u8>, v: u32)
    ensures
        final(out)@ == old(out)@ + be_bytes_u32(v),
{
    out.push((v / 16777216) as u8);
    out.push(((v / 65536) % 256) as u8);
    out.push(((v / 256) % 256) as u8);
    out.push((v % 256) as u8);
    assert(final(out)@ =~= old(out)@ + be_bytes_u32(v));
}

/// Reads four bytes as a number, least significant first.
fn read_u32_le(reader: &mut ByteReader) -> (r: Result<u32, ReadFault>)
    requires
        old(reader).wf(),
    ensures
        final(reader).wf(),
        final(reader).data() == old(reader).data(),
        old(reader).at() + 4 <= old(reader).data().len() ==> r == Ok::<u32, ReadFault>(
            le_u32(old(reader).data().subrange(old(reader).at(), old(reader).at() + 4)),
        ) && final(reader).at() == old(reader).at() + 4,
        old(reader).at() + 4 > old(reader).data().len() ==> r == Err::<u32, ReadFault>(
            ReadFault::UnexpectedEnd,
        ),
{
    match read_n_bytes(reader, 4) {
        Ok(b) => Ok(u32_from_le(&b)),
        Err(f) => Err(f),
    }
}

impl CPUType {
    /// The type's code; zero for `Unrecognized`.
    pub fn to_u32(&self) -> (r: u32)
        ensures
            r == cpu_code(*self),
    {
        match self {
            CPUType::VAX => 0x0000_0001,
            CPUType::ROMP => 0x0000_0002,
            CPUType::NS32032 => 0x0000_0004,
            CPUType::NS32332 => 0x0000_0005,
            CPUType::MC680X0 => 0x0000_0006,
            CPUType::X86 => 0x0000_0007,
            CPUType::X86_64 => 0x0100_0007,
            CPUType::MIPS => 0x0000_0008,
            CPUType::NS32352 => 0x0000_0009,
            CPUType::MC98000 => 0x0000_000A,
            CPUType::HP_PA => 0x0000_000B,
            CPUType::ARM => 0x0000_000C,
            CPUType::ARM64 => 0x0100_000C,
            CPUType::MC88000 => 0x0000_000D,
            CPUType::SPARC => 0x0000_000E,
            CPUType::I860_BE => 0x0000_000F,
            CPUType::I860_LE => 0x0000_0010,
            CPUType::RS_6000 => 0x0000_0011,
            CPUType::POWERPC => 0x0000_0012,
            CPUType::Unrecognized => 0,
        }
    }

    /// The type with code `value`, or `Unrecognized`.
    pub fn from_u32(value: u32) -> (r: CPUType)
        ensures
            r == cpu_of(value),
    {
        if value == 0x0000_0001 {
            CPUType::VAX
        } else if value == 0x0000_0002 {
            CPUType::ROMP
        } else if value == 0x0000_0004 {
            CPUType::NS32032
        } else if value == 0x0000_0005 {
            CPUType::NS32332
        } else if value == 0x0000_0006 {
            CPUType::MC680X0
        } else if value == 0x0000_0007 {
            CPUType::X86
        } else if value == 0x0100_0007 {
            CPUType::X86_64
        } else if value == 0x0000_0008 {
            CPUType::MIPS
        } else if value == 0x0000_0009 {
            CPUType::NS32352
        } else if value == 0x0000_000A {
            CPUType::MC98000
        } else if value == 0x0000_000B {
            CPUType::HP_PA
        } else if value == 0x0000_000C {
            CPUType::ARM
        } else if value == 0x0100_000C {
            CPUType::ARM64
        } else if value == 0x0000_000D {
            CPUType::MC88000
        } else if value == 0x0000_000E {
            CPUType::SPARC
        } else if value == 0x0000_000F {
            CPUType::I860_BE
        } else if value == 0x0000_0010 {
            CPUType::I860_LE
        } else if value == 0x0000_0011 {
            CPUType::RS_6000
        } else if value == 0x0000_0012 {
            CPUType::POWERPC
        } else {
            CPUType::Unrecognized
        }
    }

    pub fn from_le_bytes(bytes: [u8; 4]) -> (r: CPUType)
        ensures
            r == cpu_of(le_u32(bytes@)),
    {
        CPUType::from_u32(
            bytes[0] as u32 + 256 * bytes[1] as u32 + 65536 * bytes[2] as u32 + 16777216
                * bytes[3] as u32,
        )
    }

    pub fn from_be_bytes(bytes: [u8; 4]) -> (r: CPUType)
        ensures
            r == cpu_of(be_u32(bytes@)),
    {
        CPUType::from_u32(
            bytes[3] as u32 + 256 * bytes[2] as u32 + 65536 * bytes[1] as u32 + 16777216
                * bytes[0] as u32,
        )
    }

    /// Reads the type from four bytes, least significant first.
    pub fn from_le_reader(reader: &mut ByteReader) -> (r: Result<CPUType, ReadFault>)
        requires
            old(reader).wf(),
        ensures
            final(reader).wf(),
            final(reader).data() == old(reader).data(),
            old(reader).at() + 4 <= old(reader).data().len() ==> r == Ok::<CPUType, ReadFault>(
                cpu_of(le_u32(old(reader).data().subrange(old(reader).at(), old(reader).at() + 4))),
            ) && final(reader).at() == old(reader).at() + 4,
            old(reader).at() + 4 > old(reader).data().len() ==> r == Err::<CPUType, ReadFault>(
                ReadFault::UnexpectedEnd,
            ),
    {
        match read_n_bytes(reader, 4) {
            Ok(b) => Ok(CPUType::from_u32(u32_from_le(&b))),
            Err(f) => Err(f),
        }
    }

    /// Reads the type from four bytes, most significant first.
    pub fn from_be_reader(reader: &mut ByteReader) -> (r: Result<CPUType, ReadFault>)
        requires
            old(reader).wf(),
        ensures
            final(reader).wf(),
            final(reader).data() == old(reader).data(),
            old(reader).at() + 4 <= old(reader).data().len() ==> r == Ok::<CPUType, ReadFault>(
                cpu_of(be_u32(old(reader).data().subrange(old(reader).at(), old(reader).at() + 4))),
            ) && final(reader).at() == old(reader).at() + 4,
            old(reader).at() + 4 > old(reader).data().len() ==> r == Err::<CPUType, ReadFault>(
                ReadFault::UnexpectedEnd,
            ),
    {
        match read_n_bytes(reader, 4) {
            Ok(b) => Ok(CPUType::from_u32(u32_from_be(&b))),
            Err(f) => Err(f),
        }
    }

    /// The byte order of the processor, where this library knows it.
    pub fn endianness(&self) -> (r: Option<Endian>)
        ensures
            r == match *self {
                CPUType::ARM => Some(Endian::Either),
                CPUType::ARM64 | CPUType::X86 | CPUType::X86_64 | CPUType::I860_LE => Some(
                    Endian::Little,
                ),
                CPUType::I860_BE => Some(Endian::Big),
                _ => None,
            },
    {
        match self {
            CPUType::ARM => Some(Endian::Either),
            CPUType::ARM64 => Some(Endian::Little),
            CPUType::X86 => Some(Endian::Little),
            CPUType::X86_64 => Some(Endian::Little),
            CPUType::I860_LE => Some(Endian::Little),
            CPUType::I860_BE => Some(Endian::Big),
            _ => None,
        }
    }
}

/// The code of each processor type reads back as that type.
pub proof fn lemma_cpu_code_round_trip(c: CPUType)
    requires
        !(c is Unrecognized),
    ensures
        cpu_of(cpu_code(c)) == c,
{
}

/// The header of a Mach-O file.
#[derive(Debug, Clone, Copy, PartialEq, Eq)]
pub struct Header {
    /// `0xfeedface` for a 32-bit file, `0xfeedfacf` for a 64-bit one.
    pub magic_number: u32,
    pub cpu_type: CPUType,
    pub cpu_subtype: u32,
    pub file_type: u32,
    pub number_of_load_commands: u32,
    pub size_of_load_commands: u32,
    pub flags: u32,
    /// Present in 64-bit files only.
    pub reserved: Option<u32>,
}

/// Why a header could not be written.
#[derive(Debug, Clone, Copy, PartialEq, Eq, Structural)]
pub enum WriteFault {
    /// The processor's byte order is not fixed or not known.
    UnknownByteOrder,
}

/// The magic number of 64-bit files.
pub open spec fn magic_64() -> u32 {
    0xFEED_FACF
}

/// The header that the bytes `b` (all seven or eight fields of it, least significant byte first)
/// hold, with the number of bytes it takes.
pub open spec fn header_of_le(b: Seq<u8>) -> Option<(Header, int)> {
    if b.len() < 28 {
        None
    } else {
        let magic = le_u32(b.subrange(0, 4));
        let h = Header {
            magic_number: magic,
            cpu_type: cpu_of(le_u32(b.subrange(4, 8))),
            cpu_subtype: le_u32(b.subrange(8, 12)),
            file_type: le_u32(b.subrange(12, 16)),
            number_of_load_commands: le_u32(b.subrange(16, 20)),
            size_of_load_commands: le_u32(b.subrange(20, 24)),
            flags: le_u32(b.subrange(24, 28)),
            reserved: None,
        };
        if magic != magic_64() {
            Some((h, 28))
        } else if b.len() < 32 {
            None
        } else {
            Some((Header { reserved: Some(le_u32(b.subrange(28, 32))), ..h }, 32))
        }
    }
}

/// The bytes of a header, each field in the byte order `le` picks; a reserved field is
/// written as zero.
pub open spec fn header_bytes(h: Header, le: bool) -> Seq<u8> {
    let enc = |v: u32|
        if le {
            le_bytes_u32(v)
        } else {
            be_bytes_u32(v)
        };
    enc(h.magic_number) + enc(cpu_code(h.cpu_type)) + enc(h.cpu_subtype) + enc(h.file_type) + enc(
        h.number_of_load_commands,
    ) + enc(h.size_of_load_commands) + enc(h.flags) + if h.reserved is Some {
        seq![0u8, 0u8, 0u8, 0u8]
    } else {
        Seq::empty()
    }
}

impl Header {
    /// Reads a header whose fields are stored least significant byte first.
    pub fn from_le_reader(reader: &mut ByteReader) -> (r: Result<Header, ReadFault>)
        requires
            old(reader).wf(),
        ensures
            final(reader).wf(),
            final(reader).data() == old(reader).data(),
            match header_of_le(old(reader).data().subrange(old(reader).at(), old(reader).data().len() as int)) {
                Some((h, n)) => r == Ok::<Header, ReadFault>(h) && final(reader).at() == old(reader).at() + n,
                None => r == Err::<Header, ReadFault>(ReadFault::UnexpectedEnd),
            },
    {
        let ghost d = reader.data();
        let ghost p = reader.at();
        let ghost rest = d.subrange(p, d.len() as int);
        proof {
            assert forall|a: int, b: int| 0 <= a <= b <= rest.len() implies #[trigger] rest.subrange(a, b)
                == d.subrange(p + a, p + b) by {
                assert(rest.subrange(a, b) =~= d.subrange(p + a, p + b));
            }
        }
        let magic_number = read_u32_le(reader)?;
        let cpu_type = CPUType::from_le_reader(reader)?;
        let cpu_subtype = read_u32_le(reader)?;
        let file_type = read_u32_le(reader)?;
        let number_of_load_commands = read_u32_le(reader)?;
        let size_of_load_commands = read_u32_le(reader)?;
        let flags = read_u32_le(reader)?;
        let reserved = if magic_number == 0xFEED_FACF {
            Some(read_u32_le(reader)?)
        } else {
            None
        };
        Ok(Header {
            magic_number,
            cpu_type,
            cpu_subtype,
            file_type,
            number_of_load_commands,
            size_of_load_commands,
            flags,
            reserved,
        })
    }

    /// Appends the header's bytes to `writer`, in the byte order of its processor.
    pub fn write(&self, writer: &mut Vec<u8>) -> (r: Result<(), WriteFault>)
        ensures
            match self.cpu_type {
                CPUType::ARM64 | CPUType::X86 | CPUType::X86_64 | CPUType::I860_LE => r is Ok
                    && final(writer)@ == old(writer)@ + header_bytes(*self, true),
                CPUType::I860_BE => r is Ok && final(writer)@ == old(writer)@ + header_bytes(*self, false),
                _ => r == Err::<(), WriteFault>(WriteFault::UnknownByteOrder) && final(writer)@
                    == old(writer)@,
            },
    {
        match self.cpu_type.endianness() {
            Some(Endian::Little) => {
                self.write_le(writer);
                Ok(())
            },
            Some(Endian::Big) => {
                self.write_be(writer);
                Ok(())
            },
            _ => Err(WriteFault::UnknownByteOrder),
        }
    }

    fn write_le(&self, writer: &mut Vec<u8>)
        ensures
            final(writer)@ == old(writer)@ + header_bytes(*self, true),
    {
        push_u32_le(writer, self.magic_number);
        push_u32_le(writer, self.cpu_type.to_u32());
        push_u32_le(writer, self.cpu_subtype);
        push_u32_le(writer, self.file_type);
        push_u32_le(writer, self.number_of_load_commands);
        push_u32_le(writer, self.size_of_load_commands);
        push_u32_le(writer, self.flags);
        if self.reserved.is_some() {
            push_u32_le(writer, 0);
        }
        assert(final(writer)@ =~= old(writer)@ + header_bytes(*self, true));
    }

    fn write_be(&self, writer: &mut Vec<u8>)
        ensures
            final(writer)@ == old(writer)@ + header_bytes(*self, false),
    {
        push_u32_be(writer, self.magic_number);
        push_u32_be(writer, self.cpu_type.to_u32());
        push_u32_be(writer, self.cpu_subtype);
        push_u32_be(writer, self.file_type);
        push_u32_be(writer, self.number_of_load_commands);
        push_u32_be(writer, self.size_of_load_commands);
        push_u32_be(writer, self.flags);
        if self.reserved.is_some() {
            push_u32_be(writer, 0);
        }
        assert(final(writer)@ =~= old(writer)@ + header_bytes(*self, false));
    }
}

/// A segment load command.
#[derive(Debug, Clone, PartialEq)]
pub struct SegmentLoad {
    /// The segment's name, at most 16 characters.
    pub segment_name: String,
    pub virtual_address: u64,
    pub virtual_size: u64,
    pub file_offset: u64,
    pub file_size: u64,
    pub maximum_protection: u32,
    pub inital_protection: u32,
    pub number_of_sections: u32,
    pub flags: u32,
}

/// The body of a load command.
#[derive(Debug, Clone, PartialEq)]
pub enum LoadCommands {
    SegmentLoad(SegmentLoad),
}

/// A load command of a Mach-O file.
#[derive(Debug, Clone, PartialEq)]
pub struct LoadCommand {
    pub command: u32,
    pub command_size: u32,
    pub command_data: LoadCommands,
}

} // verus!
