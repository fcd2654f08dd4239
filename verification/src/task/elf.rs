//! Reading an ELF image: the header fields and the program headers that
//! the loader needs, as plain values.
//!
//! The parsing itself is done by the `xmas_elf` crate. It reads the
//! headers in place, in the byte order of the machine, which is the byte
//! order of the images that the machine runs. It panics on a program
//! header that lies outside the file or is too short, so the table of
//! program headers is checked here before it is read.

use vstd::prelude::*;
use xmas_elf::header::Class;
use xmas_elf::program::Type;
use xmas_elf::ElfFile;

verus! {

/// The fields of an ELF file header that the loader reads.
#[derive(Clone, Copy, Debug)]
pub struct ElfHeader {
    /// Whether the file is of the 64-bit class (else of the 32-bit class).
    pub wide: bool,
    /// Address of the first instruction.
    pub entry_point: u64,
    /// Offset of the table of program headers in the file.
    pub ph_offset: u64,
    /// Size of one program header.
    pub ph_entry_size: u16,
    /// Number of program headers.
    pub ph_count: u16,
}

/// The fields of a program header that the loader reads.
#[derive(Clone, Copy, Debug)]
pub struct SegmentHeader {
    /// Whether the segment is of type LOAD.
    pub load: bool,
    /// Offset of the segment's bytes in the file.
    pub offset: u64,
    /// Address of the segment's first byte in memory.
    pub virtual_addr: u64,
    /// Number of the segment's bytes that the file holds.
    pub file_size: u64,
    /// Number of bytes that the segment takes in memory.
    pub mem_size: u64,
}

/// The header that `xmas_elf` reads from a file with the bytes `data`, or
/// nothing where it refuses them: where the file is too short for the
/// header, does not start with the ELF magic number, or is of neither the
/// 32-bit nor the 64-bit class.
pub uninterp spec fn elf_header_of(data: Seq<u8>) -> Option<ElfHeader>;

/// The program headers that `xmas_elf` reads from a file with the bytes
/// `data`, in the order of the file's table.
pub uninterp spec fn elf_segments_of(data: Seq<u8>) -> Seq<SegmentHeader>;

/// The size that a program header of the file's class has.
pub open spec fn program_header_size(header: ElfHeader) -> int {
    if header.wide {
        56
    } else {
        32
    }
}

/// The alignment that a program header of the file's class needs.
pub open spec fn program_header_align(header: ElfHeader) -> int {
    if header.wide {
        8
    } else {
        4
    }
}

/// Whether the file names no program header at all.
pub open spec fn program_table_empty(header: ElfHeader) -> bool {
    header.ph_count == 0 || header.ph_offset == 0 || header.ph_entry_size == 0
}

/// Whether the table of program headers can be read from a file of `len`
/// bytes: it is empty, or each entry has room for a program header, is
/// aligned for one, and lies within the file.
pub open spec fn program_table_readable(header: ElfHeader, len: int) -> bool {
    program_table_empty(header) || {
        &&& header.ph_entry_size >= program_header_size(header)
        &&& header.ph_offset % (program_header_align(header) as u64) == 0
        &&& header.ph_entry_size as int % program_header_align(header) == 0
        &&& header.ph_offset + header.ph_count * header.ph_entry_size <= len
    }
}

/// `ElfFile::new`, and the getters of the header it returns. The bytes are
/// handed over in a buffer aligned to 16 bytes, which the crate's in-place
/// reads ask for. The result is the crate's reading of the bytes.
#[verifier::external_body]
fn read_header(data: &[u8]) -> (r: Option<ElfHeader>)
    ensures
        r == elf_header_of(data@),
{
    let mut buf = vec![0u8; data.len() + 16];
    let off = buf.as_ptr().align_offset(16);
    buf[off..off + data.len()].copy_from_slice(data);
    let file = ElfFile::new(&buf[off..off + data.len()]).ok()?;
    Some(ElfHeader {
        wide: matches!(file.header.pt1.class(), Class::SixtyFour),
        entry_point: file.header.pt2.entry_point(),
        ph_offset: file.header.pt2.ph_offset(),
        ph_entry_size: file.header.pt2.ph_entry_size(),
        ph_count: file.header.pt2.ph_count(),
    })
}

/// `ElfFile::program_iter`, and the getters of the program headers it
/// yields, on a file whose header the crate accepts and whose table of
/// program headers can be read. The bytes are handed over in a buffer
/// aligned to 16 bytes. The result is the crate's reading of the bytes.
#[verifier::external_body]
fn read_segments(data: &[u8]) -> (segments: Vec<SegmentHeader>)
    requires
        elf_header_of(data@) matches Some(header) && program_table_readable(
            header,
            data@.len() as int,
        ),
    ensures
        segments@ == elf_segments_of(data@),
{
    let mut buf = vec![0u8; data.len() + 16];
    let off = buf.as_ptr().align_offset(16);
    buf[off..off + data.len()].copy_from_slice(data);
    let file = ElfFile::new(&buf[off..off + data.len()]).unwrap();
    file.program_iter().map(|ph| SegmentHeader {
        load: matches!(ph.get_type(), Ok(Type::Load)),
        offset: ph.offset(),
        virtual_addr: ph.virtual_addr(),
        file_size: ph.file_size(),
        mem_size: ph.mem_size(),
    }).collect()
}

/// Why an ELF image was refused.
#[derive(Clone, Copy, Debug, PartialEq, Eq, Structural)]
pub enum ElfError {
    /// The bytes do not start with a valid ELF header.
    NotElf,
    /// The table of program headers does not lie within the file, or its
    /// entries are too short or misaligned.
    BadProgramTable,
}

/// Checks [`program_table_readable`].
pub fn table_readable(header: &ElfHeader, len: usize) -> (ok: bool)
    ensures
        ok == program_table_readable(*header, len as int),
{
    if header.ph_count == 0 || header.ph_offset == 0 || header.ph_entry_size == 0 {
        return true;
    }
    let (size, align): (u16, u16) = if header.wide {
        (56, 8)
    } else {
        (32, 4)
    };
    if header.ph_entry_size < size || header.ph_offset % (align as u64) != 0
        || header.ph_entry_size % align != 0 {
        return false;
    }
    assert(header.ph_count * header.ph_entry_size <= 0xffff * 0xffff) by (nonlinear_arith)
        requires
            header.ph_count <= 0xffff,
            header.ph_entry_size <= 0xffff,
    ;
    let table: u64 = (header.ph_count as u64) * (header.ph_entry_size as u64);
    match header.ph_offset.checked_add(table) {
        Some(end) => end <= len as u64,
        None => false,
    }
}

/// What a file with the bytes `data` yields: its header and its program
/// headers, or the reason why it is refused.
pub open spec fn parse_spec(data: Seq<u8>) -> Result<(ElfHeader, Seq<SegmentHeader>), ElfError> {
    match elf_header_of(data) {
        None => Err(ElfError::NotElf),
        Some(header) => if program_table_readable(header, data.len() as int) {
            Ok((header, elf_segments_of(data)))
        } else {
            Err(ElfError::BadProgramTable)
        },
    }
}

/// Reads the header and the program headers of an ELF image.
pub fn parse(data: &[u8]) -> (r: Result<(ElfHeader, Vec<SegmentHeader>), ElfError>)
    ensures
        match r {
            Ok((header, segments)) => parse_spec(data@) == Ok::<
                (ElfHeader, Seq<SegmentHeader>),
                ElfError,
            >((header, segments@)),
            Err(e) => parse_spec(data@) == Err::<(ElfHeader, Seq<SegmentHeader>), ElfError>(e),
        },
{
    match read_header(data) {
        None => Err(ElfError::NotElf),
        Some(header) => {
            if table_readable(&header, data.len()) {
                let segments = read_segments(data);
                Ok((header, segments))
            } else {
                Err(ElfError::BadProgramTable)
            }
        },
    }
}

} // verus!
