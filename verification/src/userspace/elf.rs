//! ELF64 headers: validation of a binary and its loadable segments. Fields are read
//! little-endian, as on x86_64.
use vstd::prelude::*;
use vstd::bytes::{spec_u16_from_le_bytes, spec_u32_from_le_bytes, spec_u64_from_le_bytes, u16_from_le_bytes, u32_from_le_bytes, u64_from_le_bytes};
use vstd::slice::slice_subrange;

verus! {

broadcast use vstd::slice::group_slice_axioms;

/// Size of the ELF64 file header.
pub const ELF_HEADER_SIZE: usize = 64;
/// Size of an ELF64 program header.
pub const PROGRAM_HEADER_SIZE: usize = 56;
/// Program header type of a loadable segment.
pub const PT_LOAD: u32 = 1;
/// `e_ident[EI_CLASS]` of a 64-bit file.
pub const ELFCLASS64: u8 = 2;
/// `e_machine` of x86_64.
pub const EM_X86_64: u16 = 0x3E;

#[derive(Debug, Clone, Copy)]
pub struct ElfHeader {
    pub e_ident: [u8; 16],
    pub e_type: u16,
    pub e_machine: u16,
    pub e_version: u32,
    pub e_entry: u64,
    pub e_phoff: u64,
    pub e_shoff: u64,
    pub e_flags: u32,
    pub e_ehsize: u16,
    pub e_phentsize: u16,
    pub e_phnum: u16,
    pub e_shentsize: u16,
    pub e_shnum: u16,
    pub e_shstrndx: u16,
}

#[derive(Debug, Clone, Copy)]
pub struct ProgramHeader {
    pub p_type: u32,
    pub p_flags: u32,
    pub p_offset: u64,
    pub p_vaddr: u64,
    pub p_paddr: u64,
    pub p_filesz: u64,
    pub p_memsz: u64,
    pub p_align: u64,
}

pub open spec fn le16(b: Seq<u8>, off: int) -> u16 {
    spec_u16_from_le_bytes(b.subrange(off, off + 2))
}

pub open spec fn le32(b: Seq<u8>, off: int) -> u32 {
    spec_u32_from_le_bytes(b.subrange(off, off + 4))
}

pub open spec fn le64(b: Seq<u8>, off: int) -> u64 {
    spec_u64_from_le_bytes(b.subrange(off, off + 8))
}

fn read16(b: &[u8], off: usize) -> (x: u16)
    requires
        off + 2 <= b@.len(),
    ensures
        x == le16(b@, off as int),
{
    let len = b.len();
    assert(off + 2 <= len);
    u16_from_le_bytes(slice_subrange(b, off, off + 2))
}

fn read32(b: &[u8], off: usize) -> (x: u32)
    requires
        off + 4 <= b@.len(),
    ensures
        x == le32(b@, off as int),
{
    let len = b.len();
    assert(off + 4 <= len);
    u32_from_le_bytes(slice_subrange(b, off, off + 4))
}

fn read64(b: &[u8], off: usize) -> (x: u64)
    requires
        off + 8 <= b@.len(),
    ensures
        x == le64(b@, off as int),
{
    let len = b.len();
    assert(off + 8 <= len);
    u64_from_le_bytes(slice_subrange(b, off, off + 8))
}

impl ElfHeader {
    /// The file header at the start of `binary`.
    pub fn parse(binary: &[u8]) -> (h: ElfHeader)
        requires
            binary@.len() >= ELF_HEADER_SIZE,
        ensures
            h.e_ident@ == binary@.take(16),
            h.e_type == le16(binary@, 16),
            h.e_machine == le16(binary@, 18),
            h.e_version == le32(binary@, 20),
            h.e_entry == le64(binary@, 24),
            h.e_phoff == le64(binary@, 32),
            h.e_shoff == le64(binary@, 40),
            h.e_flags == le32(binary@, 48),
            h.e_ehsize == le16(binary@, 52),
            h.e_phentsize == le16(binary@, 54),
            h.e_phnum == le16(binary@, 56),
            h.e_shentsize == le16(binary@, 58),
            h.e_shnum == le16(binary@, 60),
            h.e_shstrndx == le16(binary@, 62),
    {
        let mut e_ident = [0u8; 16];
        let mut i: usize = 0;
        while i < 16
            invariant
                i <= 16 <= binary@.len(),
                forall|j: int| 0 <= j < i ==> e_ident@[j] == binary@[j],
            decreases 16 - i,
        {
            e_ident[i] = binary[i];
            i = i + 1;
        }
        assert(e_ident@ =~= binary@.take(16));
        ElfHeader {
            e_ident,
            e_type: read16(binary, 16),
            e_machine: read16(binary, 18),
            e_version: read32(binary, 20),
            e_entry: read64(binary, 24),
            e_phoff: read64(binary, 32),
            e_shoff: read64(binary, 40),
            e_flags: read32(binary, 48),
            e_ehsize: read16(binary, 52),
            e_phentsize: read16(binary, 54),
            e_phnum: read16(binary, 56),
            e_shentsize: read16(binary, 58),
            e_shnum: read16(binary, 60),
            e_shstrndx: read16(binary, 62),
        }
    }
}

impl ProgramHeader {
    /// The program header at byte `offset` of `binary`.
    pub fn parse(binary: &[u8], offset: usize) -> (h: ProgramHeader)
        requires
            offset + PROGRAM_HEADER_SIZE <= binary@.len(),
        ensures
            h.p_type == le32(binary@, offset as int),
            h.p_flags == le32(binary@, offset + 4),
            h.p_offset == le64(binary@, offset + 8),
            h.p_vaddr == le64(binary@, offset + 16),
            h.p_paddr == le64(binary@, offset + 24),
            h.p_filesz == le64(binary@, offset + 32),
            h.p_memsz == le64(binary@, offset + 40),
            h.p_align == le64(binary@, offset + 48),
    {
        let len = binary.len();
        assert(offset + PROGRAM_HEADER_SIZE <= len);
        ProgramHeader {
            p_type: read32(binary, offset),
            p_flags: read32(binary, offset + 4),
            p_offset: read64(binary, offset + 8),
            p_vaddr: read64(binary, offset + 16),
            p_paddr: read64(binary, offset + 24),
            p_filesz: read64(binary, offset + 32),
            p_memsz: read64(binary, offset + 40),
            p_align: read64(binary, offset + 48),
        }
    }
}

/// The ELF magic number `\x7FELF`.
pub open spec fn elf_magic() -> Seq<u8> {
    seq![0x7Fu8, 0x45u8, 0x4Cu8, 0x46u8]
}

/// Why `binary` is not a runnable x86_64 ELF file, if it is not.
pub open spec fn validation_error(b: Seq<u8>) -> Option<Seq<char>> {
    if b.len() < 64 {
        Some("binary too small"@)
    } else if b.take(4) != elf_magic() {
        Some("not a valid ELF"@)
    } else if b[4] != 2 {
        Some("not 64-bit"@)
    } else if le16(b, 18) != 0x3E {
        Some("not x86_64"@)
    } else {
        None
    }
}

/// Check that `binary` is a 64-bit x86_64 ELF file; its entry point is returned.
pub fn validate(binary: &[u8]) -> (r: Result<u64, &'static str>)
    ensures
        match r {
            Ok(entry) => validation_error(binary@) is None && entry == le64(binary@, 24),
            Err(m) => validation_error(binary@) == Some(m@),
        },
{
    if binary.len() < ELF_HEADER_SIZE {
        return Err("binary too small");
    }
    let header = ElfHeader::parse(binary);
    let magic_ok = header.e_ident[0] == 0x7F && header.e_ident[1] == 0x45 && header.e_ident[2] == 0x4C
        && header.e_ident[3] == 0x46;
    if !magic_ok {
        assert(binary@.take(4) != elf_magic()) by {
            if binary@.take(4) == elf_magic() {
                assert(binary@.take(4)[0] == 0x7F && binary@.take(4)[1] == 0x45);
                assert(binary@.take(4)[2] == 0x4C && binary@.take(4)[3] == 0x46);
            }
        }
        return Err("not a valid ELF");
    }
    assert(binary@.take(4) =~= elf_magic());
    if header.e_ident[4] != ELFCLASS64 {
        return Err("not 64-bit");
    }
    if header.e_machine != EM_X86_64 {
        return Err("not x86_64");
    }
    Ok(header.e_entry)
}

/// Number of the program headers, among the first `k` of `b` that lie inside it in full,
/// that describe loadable segments; reading stops at the first header that does not fit.
pub open spec fn load_segments(b: Seq<u8>, phoff: int, phentsize: int, k: nat) -> nat
    decreases k,
{
    if k == 0 {
        0
    } else {
        let prev = load_segments(b, phoff, phentsize, (k - 1) as nat);
        let offset = phoff + (k - 1) * phentsize;
        if headers_fit(b, phoff, phentsize, k) && le32(b, offset) == PT_LOAD {
            prev + 1
        } else {
            prev
        }
    }
}

/// The first `k` program headers all lie inside `b`.
pub open spec fn headers_fit(b: Seq<u8>, phoff: int, phentsize: int, k: nat) -> bool {
    forall|i: int| 0 <= i < k ==> #[trigger] (phoff + i * phentsize) + 56 <= b.len()
}

/// Count the loadable segments of `binary`, whose header must be complete.
pub fn count_load_segments(binary: &[u8]) -> (n: usize)
    requires
        binary@.len() >= ELF_HEADER_SIZE,
        le64(binary@, 32) + le16(binary@, 56) * le16(binary@, 54) + PROGRAM_HEADER_SIZE <= usize::MAX,
    ensures
        n == load_segments(binary@, le64(binary@, 32) as int, le16(binary@, 54) as int, le16(binary@, 56) as nat),
{
    let header = ElfHeader::parse(binary);
    let phoff = header.e_phoff;
    let phentsize = header.e_phentsize as u64;
    let phnum = header.e_phnum;
    let ghost b = binary@;
    let mut count: usize = 0;
    let mut i: u16 = 0;
    while i < phnum
        invariant
            i <= phnum,
            phoff == le64(b, 32) && phentsize == le16(b, 54) && phnum == le16(b, 56),
            b == binary@,
            phoff + phnum * phentsize + 56 <= usize::MAX,
            headers_fit(b, phoff as int, phentsize as int, i as nat),
            count == load_segments(b, phoff as int, phentsize as int, i as nat),
            count <= i,
        decreases phnum - i,
    {
        assert(phoff + i * phentsize <= phoff + phnum * phentsize) by (nonlinear_arith)
            requires
                i < phnum,
        ;
        let offset = (phoff + (i as u64) * phentsize) as usize;
        if offset + PROGRAM_HEADER_SIZE > binary.len() {
            proof {
                lemma_stop_counting(b, phoff as int, phentsize as int, i as nat, phnum as nat);
            }
            return count;
        }
        let ph = ProgramHeader::parse(binary, offset);
        if ph.p_type == PT_LOAD {
            count = count + 1;
        }
        i = i + 1;
    }
    count
}

/// Once a header does not fit, the count no longer changes.
proof fn lemma_stop_counting(b: Seq<u8>, phoff: int, phentsize: int, i: nat, k: nat)
    requires
        i <= k,
        phoff + i * phentsize + 56 > b.len(),
    ensures
        load_segments(b, phoff, phentsize, k) == load_segments(b, phoff, phentsize, i),
    decreases k - i,
{
    if k > i {
        lemma_stop_counting(b, phoff, phentsize, i, (k - 1) as nat);
        assert(!headers_fit(b, phoff, phentsize, k)) by {
            assert(i < k);
        }
    }
}

} // verus!
