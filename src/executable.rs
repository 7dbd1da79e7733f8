//! The executable backends: the bytes of an ELF32 or a 64-bit Mach-O image
//! for a list of sections whose last one holds the code.

use vstd::prelude::*;
use vstd::string::*;
use vstd::utf8::encode_utf8;

use crate::common::{
    le_u32, le_u64, push_u32, push_u64, AsmError, DataSection, ErrorKind, SectionModel,
    CODE_SECTION_NAME, DATA_SECTION_PHYSICAL_START, DATA_SECTION_VIRTUAL_START_32,
    DATA_SECTION_VIRTUAL_START_64, PAGE_SIZE,
};

verus! {

/// File offset of the ELF string table of section names.
pub const STRTABLE_PHYSICAL_ENTRY_POINT: u32 = 0x400;

/// Name of the ELF section that holds the section names.
pub const STRTAB_SECTION_NAME: &'static str = ".shstrtab";

/// `n` zero bytes.
pub open spec fn zeros(n: nat) -> Seq<u8> {
    Seq::new(n, |i: int| 0u8)
}

/// A 16-byte name field: the name's UTF-8 bytes, then zeros up to sixteen
/// characters. A longer name is kept whole.
#[verifier::opaque]
pub open spec fn name_field(name: Seq<char>) -> Seq<u8> {
    encode_utf8(name) + zeros(
        if name.len() < 16 {
            (16 - name.len()) as nat
        } else {
            0
        },
    )
}

/// The total of the sizes of `sections`.
pub open spec fn total_size(sections: Seq<SectionModel>) -> nat
    decreases sections.len(),
{
    if sections.len() == 0 {
        0
    } else {
        total_size(sections.drop_last()) + sections.last().bytes.len()
    }
}

/// The bytes of `sections`, one after the other.
pub open spec fn all_bytes(sections: Seq<SectionModel>) -> Seq<u8>
    decreases sections.len(),
{
    if sections.len() == 0 {
        Seq::empty()
    } else {
        all_bytes(sections.drop_last()) + sections.last().bytes
    }
}

/// `s` followed by zeros up to a length of at least `n`.
pub open spec fn pad_to(s: Seq<u8>, n: nat) -> Seq<u8> {
    s + zeros(
        if s.len() < n {
            (n - s.len()) as nat
        } else {
            0
        },
    )
}

/// `s` followed by zeros up to a multiple of the page size.
pub open spec fn pad_to_page(s: Seq<u8>) -> Seq<u8> {
    let rem = s.len() % (PAGE_SIZE as nat);
    s + zeros(
        if rem == 0 {
            0
        } else {
            (PAGE_SIZE - rem) as nat
        },
    )
}

// ---------------------------------------------------------------------------
// Mach-O
// ---------------------------------------------------------------------------

/// A Mach-O header for an x86-64 executable with `ncmds` load commands of
/// `sizeofcmds` bytes.
pub open spec fn mach_o_header(ncmds: u32, sizeofcmds: u32) -> Seq<u8> {
    le_u32(0xfeed_facf) + le_u32(0x0100_0007) + le_u32(3) + le_u32(2) + le_u32(ncmds) + le_u32(
        sizeofcmds,
    ) + le_u32(1) + le_u32(0)
}

/// An `LC_SEGMENT_64` command that announces `nsects` sections. A segment
/// of size zero is the page-zero segment: it spans 4 GiB and has no access.
pub open spec fn segment_command(
    section_size: u32,
    segname: Seq<char>,
    vmaddr: u64,
    fileoff: u64,
    nsects: u32,
) -> Seq<u8> {
    le_u32(0x19) + le_u32((72 + 80 * nsects) as u32) + name_field(segname) + le_u64(vmaddr)
        + le_u64(
        if section_size == 0 {
            0x1_0000_0000u64
        } else {
            section_size as u64
        },
    ) + le_u64(fileoff) + le_u64(section_size as u64) + le_u32(
        if section_size == 0 {
            0
        } else {
            5
        },
    ) + le_u32(
        if section_size == 0 {
            0
        } else {
            5
        },
    ) + le_u32(nsects) + le_u32(0)
}

/// An `LC_UNIXTHREAD` command whose x86-64 thread state starts at `rip`.
pub open spec fn thread_command(rip: u64) -> Seq<u8> {
    le_u32(5) + le_u32(184) + le_u32(4) + le_u32(42) + zeros(128) + le_u64(rip) + zeros(32)
}

/// A Mach-O section entry with the flags of a section of instructions.
pub open spec fn mach_o_section(
    sectname: Seq<char>,
    segname: Seq<char>,
    vmaddr: u64,
    size: u64,
    fileoff: u32,
) -> Seq<u8> {
    name_field(sectname) + name_field(segname) + le_u64(vmaddr) + le_u64(size) + le_u32(fileoff)
        + zeros(12) + le_u32(0x8000_0400) + zeros(12)
}

/// The Mach-O name of a section: the code section is `__text`.
pub open spec fn mach_o_section_name(name: Seq<char>) -> Seq<char> {
    if name == CODE_SECTION_NAME@ {
        "__text"@
    } else {
        name
    }
}

/// The section entries of the `__TEXT` segment. All sections share the
/// virtual address of the code; their file offsets follow one another from
/// the second page on.
pub open spec fn mach_o_sections(sections: Seq<SectionModel>) -> Seq<u8>
    decreases sections.len(),
{
    if sections.len() == 0 {
        Seq::empty()
    } else {
        let s = sections.last();
        mach_o_sections(sections.drop_last()) + mach_o_section(
            mach_o_section_name(s.name),
            "__TEXT"@,
            (DATA_SECTION_VIRTUAL_START_64 + 0x1000) as u64,
            s.bytes.len() as u64,
            (0x1000 + total_size(sections.drop_last())) as u32,
        )
    }
}

/// The virtual address at which a Mach-O image starts: that of the code, if
/// there is a code section.
pub open spec fn mach_o_entry(sections: Seq<SectionModel>) -> u64 {
    if exists|i: int| 0 <= i < sections.len() && #[trigger] sections[i].name == CODE_SECTION_NAME@ {
        (DATA_SECTION_VIRTUAL_START_64 + 0x1000) as u64
    } else {
        0
    }
}

/// Whether the sizes of `sections` fit the 32-bit fields of a Mach-O image.
pub open spec fn mach_o_fits(sections: Seq<SectionModel>) -> bool {
    sections.len() <= 0x0100_0000 && total_size(sections) <= 0xffff_e000
}

/// The load commands of a Mach-O image.
pub open spec fn mach_o_commands(sections: Seq<SectionModel>) -> Seq<u8> {
    let data_size = total_size(sections);
    let padded = if data_size % 0x1000 == 0 {
        data_size
    } else {
        (data_size + (0x1000 - data_size % 0x1000)) as nat
    };
    segment_command(0, "__PAGEZERO"@, 0, 0, 0) + (segment_command(
        (padded + 0x1000) as u32,
        "__TEXT"@,
        DATA_SECTION_VIRTUAL_START_64,
        0,
        sections.len() as u32,
    ) + mach_o_sections(sections)) + thread_command(mach_o_entry(sections))
}

/// A Mach-O image: header and load commands on the first page, then the
/// bytes of all sections, padded to whole pages.
pub open spec fn mach_o_image(sections: Seq<SectionModel>) -> Seq<u8> {
    let commands = mach_o_commands(sections);
    pad_to_page(
        pad_to(mach_o_header(3, commands.len() as u32) + commands, 0x1000) + all_bytes(sections),
    )
}

// ---------------------------------------------------------------------------
// ELF
// ---------------------------------------------------------------------------

/// The string table entries of `names`: each one's UTF-8 bytes and a zero.
pub open spec fn string_entries(names: Seq<Seq<char>>) -> Seq<u8>
    decreases names.len(),
{
    if names.len() == 0 {
        Seq::empty()
    } else {
        string_entries(names.drop_last()) + encode_utf8(names.last()) + seq![0u8]
    }
}

/// A string table: a zero byte, then the entries of `names`.
pub open spec fn string_table(names: Seq<Seq<char>>) -> Seq<u8> {
    seq![0u8] + string_entries(names)
}

/// An ELF32 section header entry.
pub open spec fn section_header_entry(
    sh_name: u32,
    sh_type: u32,
    sh_flags: u32,
    sh_addr: u32,
    sh_offset: u32,
    sh_size: u32,
    sh_link: u32,
    sh_info: u32,
    sh_addralign: u32,
    sh_entsize: u32,
) -> Seq<u8> {
    le_u32(sh_name) + le_u32(sh_type) + le_u32(sh_flags) + le_u32(sh_addr) + le_u32(sh_offset)
        + le_u32(sh_size) + le_u32(sh_link) + le_u32(sh_info) + le_u32(sh_addralign) + le_u32(
        sh_entsize,
    )
}

/// The virtual address of the page with the given index.
pub open spec fn page_address(index: nat) -> u32 {
    (DATA_SECTION_VIRTUAL_START_32 + PAGE_SIZE * index) as u32
}

/// The file offset of the page with the given index.
pub open spec fn page_offset(index: nat) -> u32 {
    (DATA_SECTION_PHYSICAL_START + PAGE_SIZE * index) as u32
}

/// The entries of the data sections in the section header: each on a page
/// of its own, named by its string table entry.
pub open spec fn data_section_entries(sizes: Seq<u32>, names: Seq<Seq<char>>) -> Seq<u8>
    decreases sizes.len(),
{
    if sizes.len() == 0 {
        Seq::empty()
    } else {
        let k = (sizes.len() - 1) as nat;
        data_section_entries(sizes.drop_last(), names) + section_header_entry(
            (1 + string_entries(names.subrange(0, k as int)).len()) as u32,
            1,
            3,
            page_address(k),
            page_offset(k),
            sizes.last(),
            0,
            0,
            1,
            0,
        )
    }
}

/// The ELF section header: a null entry, the data sections, the code and
/// the string table.
pub open spec fn section_header(
    program_size: u32,
    sizes: Seq<u32>,
    names: Seq<Seq<char>>,
    strtable_size: u32,
) -> Seq<u8> {
    let n = sizes.len();
    let code_name = (1 + string_entries(names).len()) as u32;
    section_header_entry(0, 0, 0, 0, 0, 0, 0, 0, 0, 0) + data_section_entries(sizes, names)
        + section_header_entry(
        code_name,
        1,
        6,
        page_address(n),
        page_offset(n),
        program_size,
        0,
        0,
        1,
        0,
    ) + section_header_entry(
        (code_name + 6) as u32,
        3,
        0,
        0,
        STRTABLE_PHYSICAL_ENTRY_POINT,
        strtable_size,
        0,
        0,
        1,
        0,
    )
}

/// Whether the section header of `names` can be written with 32-bit fields.
pub open spec fn section_header_fits(sizes: Seq<u32>, names: Seq<Seq<char>>) -> bool {
    &&& sizes.len() == names.len()
    &&& DATA_SECTION_VIRTUAL_START_32 + PAGE_SIZE * sizes.len() <= u32::MAX
    &&& 1 + string_entries(names).len() + 6 <= u32::MAX
}

/// A `PT_LOAD` program header entry.
pub open spec fn program_header_entry(size: u32, offset: u32, virtual_address: u32, flags: u32) -> Seq<
    u8,
> {
    le_u32(1) + le_u32(offset) + le_u32(virtual_address) + le_u32(virtual_address) + le_u32(size)
        + le_u32(size) + le_u32(flags) + le_u32(PAGE_SIZE)
}

/// The program header entries of the data sections, readable and writable.
pub open spec fn data_program_entries(sizes: Seq<u32>) -> Seq<u8>
    decreases sizes.len(),
{
    if sizes.len() == 0 {
        Seq::empty()
    } else {
        let k = (sizes.len() - 1) as nat;
        data_program_entries(sizes.drop_last()) + program_header_entry(
            sizes.last(),
            page_offset(k),
            page_address(k),
            6,
        )
    }
}

/// The ELF program header: the code, readable and executable, on the page
/// after the data sections, then the data sections.
pub open spec fn program_header(program_size: u32, sizes: Seq<u32>) -> Seq<u8> {
    program_header_entry(program_size, page_offset(sizes.len()), page_address(sizes.len()), 5)
        + data_program_entries(sizes)
}

/// The ELF header of an x86 executable with `number_of_program_headers`
/// program headers and `number_of_sections` section headers, the last of
/// them the string table; it starts at the code, which follows
/// `number_of_sections - 3` pages of data.
pub open spec fn elf_header(number_of_program_headers: u32, number_of_sections: u32) -> Seq<u8> {
    seq![0x7fu8, 0x45, 0x4c, 0x46, 1, 1, 1, 0, 0] + zeros(7) + seq![2u8, 0, 3, 0] + le_u32(1)
        + le_u32(page_address((number_of_sections - 3) as nat)) + le_u32(52) + le_u32(
        (52 + 32 * number_of_program_headers) as u32,
    ) + zeros(4) + seq![
        52u8,
        0,
        32,
        0,
        number_of_program_headers as u8,
        0,
        40,
        0,
        number_of_sections as u8,
        0,
        (number_of_sections - 1) as u8,
        0,
    ]
}

/// The sizes of `sections`.
pub open spec fn sizes_of(sections: Seq<SectionModel>) -> Seq<u32> {
    sections.map_values(|s: SectionModel| s.bytes.len() as u32)
}

/// The names of `sections`.
pub open spec fn names_of(sections: Seq<SectionModel>) -> Seq<Seq<char>> {
    sections.map_values(|s: SectionModel| s.name)
}

/// The ELF string table of an image whose data sections are `data`.
pub open spec fn elf_string_table(data: Seq<SectionModel>) -> Seq<u8> {
    string_table(names_of(data)) + encode_utf8(CODE_SECTION_NAME@) + seq![0u8] + encode_utf8(
        STRTAB_SECTION_NAME@,
    ) + seq![0u8]
}

/// The data sections, each padded to a page.
pub open spec fn elf_data(data: Seq<SectionModel>) -> Seq<u8>
    decreases data.len(),
{
    if data.len() == 0 {
        Seq::empty()
    } else {
        elf_data(data.drop_last()) + data.last().bytes + zeros(
            (PAGE_SIZE - data.last().bytes.len() % (PAGE_SIZE as nat)) as nat,
        )
    }
}

/// The headers of an ELF image.
pub open spec fn elf_headers(sections: Seq<SectionModel>) -> Seq<u8> {
    let n = sections.len();
    let data = sections.drop_last();
    let program = sections.last().bytes;
    elf_header(n as u32, (n + 2) as u32) + program_header(program.len() as u32, sizes_of(data))
        + section_header(
        program.len() as u32,
        sizes_of(data),
        names_of(data),
        elf_string_table(data).len() as u32,
    )
}

/// Whether `sections` can be laid out as an ELF image: the headers fit
/// before the string table, the string table before the first page of data,
/// and each data section within its page.
pub open spec fn elf_fits(sections: Seq<SectionModel>) -> bool {
    let data = sections.drop_last();
    &&& sections.len() <= 0xfff
    &&& sections.last().bytes.len() <= u32::MAX
    &&& forall|k: int| 0 <= k < data.len() ==> (#[trigger] data[k]).bytes.len() < PAGE_SIZE
    &&& elf_string_table(data).len() <= DATA_SECTION_PHYSICAL_START - STRTABLE_PHYSICAL_ENTRY_POINT
    &&& elf_headers(sections).len() <= STRTABLE_PHYSICAL_ENTRY_POINT
}

/// An ELF image: the headers, the string table from offset 0x400, each data
/// section on a page of its own from the second page on, then the code.
pub open spec fn elf_image(sections: Seq<SectionModel>) -> Seq<u8> {
    let data = sections.drop_last();
    pad_to(
        pad_to(elf_headers(sections), STRTABLE_PHYSICAL_ENTRY_POINT as nat) + elf_string_table(data),
        DATA_SECTION_PHYSICAL_START as nat,
    ) + elf_data(data) + sections.last().bytes
}

/// Whether `r` is the image that `fits` and `image` describe, or the error
/// for sections that do not fit.
pub open spec fn image_outcome(r: Result<Vec<u8>, AsmError>, fits: bool, image: Seq<u8>) -> bool {
    if fits {
        r is Ok && r->Ok_0@ == image
    } else {
        r is Err && r->Err_0.kind == ErrorKind::TooLarge
    }
}

// ---------------------------------------------------------------------------
// Writing bytes
// ---------------------------------------------------------------------------

/// Appends `bytes` to `out`.
fn push_bytes(out: &mut Vec<u8>, bytes: &[u8])
    ensures
        final(out)@ == old(out)@ + bytes@,
{
    let ghost start = out@;
    let mut i: usize = 0;
    while i < bytes.len()
        invariant
            0 <= i <= bytes.len(),
            out@ == start + bytes@.subrange(0, i as int),
        decreases bytes.len() - i,
    {
        out.push(bytes[i]);
        assert(bytes@.subrange(0, i + 1) =~= bytes@.subrange(0, i as int).push(bytes@[i as int]));
        i = i + 1;
    }
    assert(bytes@.subrange(0, i as int) =~= bytes@);
}

/// Appends `n` zero bytes to `out`.
fn push_zeros(out: &mut Vec<u8>, n: usize)
    ensures
        final(out)@ == old(out)@ + zeros(n as nat),
{
    let ghost start = out@;
    let mut i: usize = 0;
    while i < n
        invariant
            0 <= i <= n,
            out@ == start + zeros(i as nat),
        decreases n - i,
    {
        out.push(0);
        assert(zeros((i + 1) as nat) =~= zeros(i as nat).push(0));
        i = i + 1;
    }
}

/// Appends the 16-byte name field of `name` to `out`.
fn push_name_field(out: &mut Vec<u8>, name: &str)
    ensures
        final(out)@ == old(out)@ + name_field(name@),
{
    let ghost start = out@;
    push_bytes(out, name.as_bytes());
    let count = name.unicode_len();
    let fill: usize = if count < 16 { 16 - count } else { 0 };
    push_zeros(out, fill);
    reveal(name_field);
    assert(out@ =~= start + name_field(name@));
}

/// The Mach-O backend.
pub struct MachO {}

impl MachO {
    /// The 32-byte Mach-O header.
    pub fn create_header(&mut self, ncmds: u32, sizeofcmds: u32) -> (r: Vec<u8>)
        ensures
            r@ == mach_o_header(ncmds, sizeofcmds),
    {
        let mut header: Vec<u8> = Vec::new();
        push_u32(&mut header, 0xfeed_facf);
        assert(header@ =~= le_u32(0xfeed_facf));
        push_u32(&mut header, 0x0100_0007);
        push_u32(&mut header, 3);
        push_u32(&mut header, 2);
        push_u32(&mut header, ncmds);
        push_u32(&mut header, sizeofcmds);
        push_u32(&mut header, 1);
        push_u32(&mut header, 0);
        assert(header@ == mach_o_header(ncmds, sizeofcmds));
        header
    }

    /// A 72-byte segment command.
    pub fn create_segment_command(
        &mut self,
        section_size: u32,
        segname: &str,
        vmaddr: u64,
        fileoff: u64,
        nsects: u32,
    ) -> (r: Vec<u8>)
        requires
            72 + 80 * nsects <= u32::MAX,
        ensures
            r@ == segment_command(section_size, segname@, vmaddr, fileoff, nsects),
    {
        let mut command: Vec<u8> = Vec::new();
        push_u32(&mut command, 0x19);
        assert(command@ =~= le_u32(0x19));
        push_u32(&mut command, 72 + 80 * nsects);
        push_name_field(&mut command, segname);
        push_u64(&mut command, vmaddr);
        if section_size == 0 {
            push_u64(&mut command, 0x1_0000_0000);
        } else {
            push_u64(&mut command, section_size as u64);
        }
        push_u64(&mut command, fileoff);
        push_u64(&mut command, section_size as u64);
        let protection: u32 = if section_size == 0 { 0 } else { 5 };
        push_u32(&mut command, protection);
        push_u32(&mut command, protection);
        push_u32(&mut command, nsects);
        push_u32(&mut command, 0);
        assert(command@ == segment_command(section_size, segname@, vmaddr, fileoff, nsects));
        command
    }

    /// A 184-byte thread command.
    pub fn create_thread_command(&mut self, rip: u64) -> (r: Vec<u8>)
        ensures
            r@ == thread_command(rip),
    {
        let mut command: Vec<u8> = Vec::new();
        push_u32(&mut command, 5);
        assert(command@ =~= le_u32(5));
        push_u32(&mut command, 4 * 4 + 21 * 8);
        push_u32(&mut command, 4);
        push_u32(&mut command, 21 * 8 / 4);
        push_zeros(&mut command, 16 * 8);
        push_u64(&mut command, rip);
        push_zeros(&mut command, 4 * 8);
        assert(command@ == thread_command(rip));
        command
    }

    /// An 80-byte section entry.
    pub fn create_section(
        &mut self,
        sectname: &str,
        segname: &str,
        vmaddr: u64,
        size: u64,
        fileoff: u32,
    ) -> (r: Vec<u8>)
        ensures
            r@ == mach_o_section(sectname@, segname@, vmaddr, size, fileoff),
    {
        let mut section: Vec<u8> = Vec::new();
        push_name_field(&mut section, sectname);
        assert(section@ =~= name_field(sectname@));
        push_name_field(&mut section, segname);
        push_u64(&mut section, vmaddr);
        push_u64(&mut section, size);
        push_u32(&mut section, fileoff);
        push_zeros(&mut section, 12);
        push_u32(&mut section, 0x8000_0400);
        push_zeros(&mut section, 12);
        assert(section@ == mach_o_section(sectname@, segname@, vmaddr, size, fileoff));
        section
    }
}

proof fn lemma_total_size_prefix(sections: Seq<SectionModel>, k: int)
    requires
        0 <= k <= sections.len(),
    ensures
        total_size(sections.subrange(0, k)) <= total_size(sections),
    decreases sections.len() - k,
{
    if k < sections.len() {
        lemma_total_size_prefix(sections, k + 1);
        assert(sections.subrange(0, k + 1).drop_last() =~= sections.subrange(0, k));
    } else {
        assert(sections.subrange(0, k) =~= sections);
    }
}

proof fn lemma_string_entries_prefix(names: Seq<Seq<char>>, k: int)
    requires
        0 <= k <= names.len(),
    ensures
        string_entries(names.subrange(0, k)).len() <= string_entries(names).len(),
    decreases names.len() - k,
{
    if k < names.len() {
        lemma_string_entries_prefix(names, k + 1);
        assert(names.subrange(0, k + 1).drop_last() =~= names.subrange(0, k));
    } else {
        assert(names.subrange(0, k) =~= names);
    }
}

impl MachO {
    /// The bytes of a Mach-O image of `sections`, or `TooLarge` where their
    /// number or sizes do not fit its fields.
    pub fn image(&mut self, sections: &Vec<DataSection>) -> (r: Result<Vec<u8>, AsmError>)
        ensures
            image_outcome(r, mach_o_fits(sections.deep_view()), mach_o_image(sections.deep_view())),
    {
        let ghost all = sections.deep_view();
        let n = sections.len();
        if n > 0x0100_0000 {
            return Err(AsmError::new(ErrorKind::TooLarge, String::new()));
        }
        let mut data_size: u32 = 0;
        let mut i: usize = 0;
        while i < n
            invariant
                0 <= i <= n,
                n == sections.len(),
                all == sections.deep_view(),
                data_size == total_size(all.subrange(0, i as int)),
                data_size <= 0xffff_e000,
            decreases n - i,
        {
            let len = sections[i].bytes.len();
            assert(all.subrange(0, i + 1).drop_last() =~= all.subrange(0, i as int));
            if len > 0xffff_e000 - data_size as usize {
                proof {
                    lemma_total_size_prefix(all, i + 1);
                }
                return Err(AsmError::new(ErrorKind::TooLarge, String::new()));
            }
            data_size = data_size + len as u32;
            i = i + 1;
        }
        assert(all.subrange(0, n as int) =~= all);
        let padded: u32 = if data_size % 0x1000 == 0 {
            data_size
        } else {
            data_size + (0x1000 - data_size % 0x1000)
        };
        let mut commands = self.create_segment_command(0, "__PAGEZERO", 0, 0, 0);
        let mut text = self.create_segment_command(
            padded + 0x1000,
            "__TEXT",
            DATA_SECTION_VIRTUAL_START_64,
            0,
            n as u32,
        );
        let ghost text_start = text@;
        let code_name = String::from_str(CODE_SECTION_NAME);
        let code_address: u64 = DATA_SECTION_VIRTUAL_START_64 + 0x1000;
        let mut entry: u64 = 0;
        let mut offset: u32 = 0x1000;
        let mut k: usize = 0;
        while k < n
            invariant
                0 <= k <= n,
                n == sections.len(),
                n <= 0x0100_0000,
                all == sections.deep_view(),
                total_size(all) <= 0xffff_e000,
                code_name@ == CODE_SECTION_NAME@,
                code_address == DATA_SECTION_VIRTUAL_START_64 + 0x1000,
                offset == 0x1000 + total_size(all.subrange(0, k as int)),
                text@ == text_start + mach_o_sections(all.subrange(0, k as int)),
                entry == mach_o_entry(all.subrange(0, k as int)),
            decreases n - k,
        {
            let ghost prefix = all.subrange(0, k as int);
            let ghost next = all.subrange(0, k + 1);
            proof {
                assert(next.drop_last() =~= prefix);
                assert(next.last() == all[k as int]);
                lemma_total_size_prefix(all, k + 1);
            }
            let section = &sections[k];
            let is_code = section.name == code_name;
            let len = section.bytes.len();
            let entry_text = if is_code {
                self.create_section("__text", "__TEXT", code_address, len as u64, offset)
            } else {
                self.create_section(section.name.as_str(), "__TEXT", code_address, len as u64, offset)
            };
            let mut entry_bytes = entry_text;
            text.append(&mut entry_bytes);
            proof {
                if is_code {
                    assert(next[k as int].name == CODE_SECTION_NAME@);
                } else {
                    if exists|j: int| 0 <= j < next.len() && #[trigger] next[j].name == CODE_SECTION_NAME@ {
                        let j = choose|j: int| 0 <= j < next.len() && #[trigger] next[j].name == CODE_SECTION_NAME@;
                        assert(prefix[j] == next[j]);
                    }
                    if exists|j: int| 0 <= j < prefix.len() && #[trigger] prefix[j].name == CODE_SECTION_NAME@ {
                        let j = choose|j: int| 0 <= j < prefix.len() && #[trigger] prefix[j].name == CODE_SECTION_NAME@;
                        assert(next[j] == prefix[j]);
                    }
                }
            }
            if is_code {
                entry = code_address;
            }
            offset = offset + len as u32;
            k = k + 1;
        }
        assert(all.subrange(0, n as int) =~= all);
        let mut thread = self.create_thread_command(entry);
        commands.append(&mut text);
        commands.append(&mut thread);
        assert(commands@ == mach_o_commands(all));
        let header = self.create_header(3, commands.len() as u32);
        let mut out = header;
        out.append(&mut commands);
        if out.len() < 0x1000 {
            let fill = 0x1000 - out.len();
            push_zeros(&mut out, fill);
        } else {
            push_zeros(&mut out, 0);
        }
        let ghost head = out@;
        let mut j: usize = 0;
        while j < n
            invariant
                0 <= j <= n,
                n == sections.len(),
                all == sections.deep_view(),
                out@ == head + all_bytes(all.subrange(0, j as int)),
            decreases n - j,
        {
            push_bytes(&mut out, sections[j].bytes.as_slice());
            assert(all.subrange(0, j + 1).drop_last() =~= all.subrange(0, j as int));
            assert(out@ =~= head + all_bytes(all.subrange(0, j + 1)));
            j = j + 1;
        }
        let rem = out.len() % 0x1000;
        if rem == 0 {
            push_zeros(&mut out, 0);
        } else {
            push_zeros(&mut out, 0x1000 - rem);
        }
        assert(out@ =~= mach_o_image(all));
        Ok(out)
    }
}

/// The ELF32 backend.
pub struct ELF {}

impl ELF {
    /// A string table of `strings`.
    pub fn create_string_table(&mut self, strings: &Vec<&String>) -> (r: Vec<u8>)
        ensures
            r@ == string_table(strings.deep_view()),
    {
        let ghost names = strings.deep_view();
        let mut table: Vec<u8> = vec![0];
        let mut i: usize = 0;
        while i < strings.len()
            invariant
                0 <= i <= strings.len(),
                names == strings.deep_view(),
                table@ == string_table(names.subrange(0, i as int)),
            decreases strings.len() - i,
        {
            let ghost before = table@;
            push_bytes(&mut table, strings[i].as_str().as_bytes());
            table.push(0);
            proof {
                let part = names.subrange(0, i + 1);
                assert(part.drop_last() =~= names.subrange(0, i as int));
                assert(part.last() == strings[i as int]@);
                assert(table@ =~= string_table(part));
            }
            i = i + 1;
        }
        assert(names.subrange(0, i as int) =~= names);
        table
    }

    /// One 40-byte section header entry.
    pub fn create_section_header_entry(
        &mut self,
        sh_name: u32,
        sh_type: u32,
        sh_flags: u32,
        sh_addr: u32,
        sh_offset: u32,
        sh_size: u32,
        sh_link: u32,
        sh_info: u32,
        sh_addralign: u32,
        sh_entsize: u32,
    ) -> (r: Vec<u8>)
        ensures
            r@ == section_header_entry(
                sh_name,
                sh_type,
                sh_flags,
                sh_addr,
                sh_offset,
                sh_size,
                sh_link,
                sh_info,
                sh_addralign,
                sh_entsize,
            ),
    {
        let mut entry: Vec<u8> = Vec::new();
        push_u32(&mut entry, sh_name);
        assert(entry@ =~= le_u32(sh_name));
        push_u32(&mut entry, sh_type);
        push_u32(&mut entry, sh_flags);
        push_u32(&mut entry, sh_addr);
        push_u32(&mut entry, sh_offset);
        push_u32(&mut entry, sh_size);
        push_u32(&mut entry, sh_link);
        push_u32(&mut entry, sh_info);
        push_u32(&mut entry, sh_addralign);
        push_u32(&mut entry, sh_entsize);
        entry
    }

    /// The section header of an image with the given data sections.
    pub fn create_section_header(
        &mut self,
        program_size: u32,
        data_section_sizes: &[u32],
        data_section_names: &[&String],
        strtable_size: u32,
    ) -> (r: Vec<u8>)
        requires
            section_header_fits(data_section_sizes@, data_section_names.deep_view()),
        ensures
            r@ == section_header(
                program_size,
                data_section_sizes@,
                data_section_names.deep_view(),
                strtable_size,
            ),
    {
        let ghost sizes = data_section_sizes@;
        let ghost names = data_section_names.deep_view();
        let mut header = self.create_section_header_entry(0, 0, 0, 0, 0, 0, 0, 0, 0, 0);
        let ghost sentinel = header@;
        let mut strtab_index: u32 = 1;
        let mut virtual_start: u32 = DATA_SECTION_VIRTUAL_START_32;
        let mut physical_start: u32 = DATA_SECTION_PHYSICAL_START;
        let n = data_section_sizes.len();
        let mut k: usize = 0;
        while k < n
            invariant
                0 <= k <= n,
                n == sizes.len(),
                sizes == data_section_sizes@,
                names == data_section_names.deep_view(),
                section_header_fits(sizes, names),
                strtab_index == 1 + string_entries(names.subrange(0, k as int)).len(),
                virtual_start == page_address(k as nat),
                physical_start == page_offset(k as nat),
                header@ == sentinel + data_section_entries(sizes.subrange(0, k as int), names),
            decreases n - k,
        {
            let mut entry = self.create_section_header_entry(
                strtab_index,
                1,
                3,
                virtual_start,
                physical_start,
                data_section_sizes[k],
                0,
                0,
                1,
                0,
            );
            header.append(&mut entry);
            proof {
                let part = sizes.subrange(0, k + 1);
                assert(part.drop_last() =~= sizes.subrange(0, k as int));
                assert(part.last() == sizes[k as int]);
                assert(header@ =~= sentinel + data_section_entries(part, names));
                let np = names.subrange(0, k + 1);
                assert(np.drop_last() =~= names.subrange(0, k as int));
                assert(np.last() == data_section_names[k as int]@);
                lemma_string_entries_prefix(names, k + 1);
            }
            physical_start = physical_start + PAGE_SIZE;
            virtual_start = virtual_start + PAGE_SIZE;
            strtab_index = strtab_index + data_section_names[k].as_str().len() as u32 + 1;
            k = k + 1;
        }
        assert(sizes.subrange(0, k as int) =~= sizes);
        assert(names.subrange(0, k as int) =~= names);
        let mut code = self.create_section_header_entry(
            strtab_index,
            1,
            6,
            virtual_start,
            physical_start,
            program_size,
            0,
            0,
            1,
            0,
        );
        header.append(&mut code);
        let mut table = self.create_section_header_entry(
            strtab_index + 6,
            3,
            0,
            0,
            STRTABLE_PHYSICAL_ENTRY_POINT,
            strtable_size,
            0,
            0,
            1,
            0,
        );
        header.append(&mut table);
        header
    }

    /// One 32-byte `PT_LOAD` program header entry.
    pub fn create_program_header_entry(
        &mut self,
        size: u32,
        offset: u32,
        virtual_address: u32,
        flags: u32,
    ) -> (r: Vec<u8>)
        ensures
            r@ == program_header_entry(size, offset, virtual_address, flags),
    {
        let mut entry: Vec<u8> = Vec::new();
        push_u32(&mut entry, 1);
        assert(entry@ =~= le_u32(1));
        push_u32(&mut entry, offset);
        push_u32(&mut entry, virtual_address);
        push_u32(&mut entry, virtual_address);
        push_u32(&mut entry, size);
        push_u32(&mut entry, size);
        push_u32(&mut entry, flags);
        push_u32(&mut entry, PAGE_SIZE);
        entry
    }

    /// The program header: the code first, then each data section.
    pub fn create_program_header(&mut self, program_size: u32, data_section_sizes: &Vec<u32>) -> (r:
        Vec<u8>)
        requires
            DATA_SECTION_VIRTUAL_START_32 + PAGE_SIZE * data_section_sizes.len() <= u32::MAX,
        ensures
            r@ == program_header(program_size, data_section_sizes@),
    {
        let ghost sizes = data_section_sizes@;
        let n = data_section_sizes.len();
        let mut header = self.create_program_header_entry(
            program_size,
            DATA_SECTION_PHYSICAL_START + PAGE_SIZE * n as u32,
            DATA_SECTION_VIRTUAL_START_32 + PAGE_SIZE * n as u32,
            5,
        );
        let ghost code = header@;
        let mut physical_address: u32 = DATA_SECTION_PHYSICAL_START;
        let mut virtual_address: u32 = DATA_SECTION_VIRTUAL_START_32;
        let mut k: usize = 0;
        while k < n
            invariant
                0 <= k <= n,
                n == sizes.len(),
                DATA_SECTION_VIRTUAL_START_32 + PAGE_SIZE * n <= u32::MAX,
                sizes == data_section_sizes@,
                physical_address == page_offset(k as nat),
                virtual_address == page_address(k as nat),
                header@ == code + data_program_entries(sizes.subrange(0, k as int)),
            decreases n - k,
        {
            let mut entry = self.create_program_header_entry(
                data_section_sizes[k],
                physical_address,
                virtual_address,
                6,
            );
            header.append(&mut entry);
            proof {
                let part = sizes.subrange(0, k + 1);
                assert(part.drop_last() =~= sizes.subrange(0, k as int));
                assert(header@ =~= code + data_program_entries(part));
            }
            physical_address = physical_address + PAGE_SIZE;
            virtual_address = virtual_address + PAGE_SIZE;
            k = k + 1;
        }
        assert(sizes.subrange(0, k as int) =~= sizes);
        header
    }

    /// The 52-byte ELF header.
    pub fn create_elf_header(&mut self, number_of_program_headers: u32, number_of_sections: u32) -> (r:
        Vec<u8>)
        requires
            3 <= number_of_sections,
            DATA_SECTION_VIRTUAL_START_32 + (number_of_sections - 3) * PAGE_SIZE <= u32::MAX,
            52 + 32 * number_of_program_headers <= u32::MAX,
        ensures
            r@ == elf_header(number_of_program_headers, number_of_sections),
    {
        let mut header: Vec<u8> = vec![0x7f, 0x45, 0x4c, 0x46, 0x01, 0x01, 0x01, 0x00, 0x00];
        push_zeros(&mut header, 7);
        header.push(0x02);
        header.push(0x00);
        header.push(0x03);
        header.push(0x00);
        push_u32(&mut header, 1);
        push_u32(&mut header, DATA_SECTION_VIRTUAL_START_32 + (number_of_sections - 3) * PAGE_SIZE);
        push_u32(&mut header, 0x34);
        push_u32(&mut header, 0x34 + number_of_program_headers * 32);
        push_zeros(&mut header, 4);
        header.push(52);
        header.push(0x00);
        header.push(32);
        header.push(0x00);
        header.push(number_of_program_headers as u8);
        header.push(0x00);
        header.push(40);
        header.push(0x00);
        header.push(number_of_sections as u8);
        header.push(0x00);
        header.push((number_of_sections - 1) as u8);
        header.push(0x00);
        assert(header@ =~= elf_header(number_of_program_headers, number_of_sections));
        header
    }

    /// The bytes of an ELF image of `sections`, whose last one is the code,
    /// or `TooLarge` where they do not fit its layout.
    pub fn image(&mut self, sections: &Vec<DataSection>) -> (r: Result<Vec<u8>, AsmError>)
        requires
            sections.len() >= 1,
        ensures
            image_outcome(r, elf_fits(sections.deep_view()), elf_image(sections.deep_view())),
    {
        let ghost all = sections.deep_view();
        let ghost data = all.drop_last();
        let n = sections.len();
        let program = &sections[n - 1].bytes;
        assert(all.last().bytes == program@);
        if n > 0xfff || program.len() > 0xffff_ffff {
            return Err(AsmError::new(ErrorKind::TooLarge, String::new()));
        }
        let mut sizes: Vec<u32> = Vec::new();
        let mut names: Vec<&String> = Vec::new();
        let mut k: usize = 0;
        while k < n - 1
            invariant
                0 <= k <= n - 1,
                n == sections.len(),
                all == sections.deep_view(),
                data == all.drop_last(),
                sizes@ == sizes_of(data.subrange(0, k as int)),
                names.deep_view() == names_of(data.subrange(0, k as int)),
                forall|j: int| 0 <= j < k ==> (#[trigger] data[j]).bytes.len() < PAGE_SIZE,
            decreases n - 1 - k,
        {
            let len = sections[k].bytes.len();
            assert(data[k as int] == sections[k as int].deep_view());
            if len >= PAGE_SIZE as usize {
                return Err(AsmError::new(ErrorKind::TooLarge, String::new()));
            }
            sizes.push(len as u32);
            let ghost before = names.deep_view();
            names.push(&sections[k].name);
            assert(names.deep_view() =~= before.push(sections[k as int].name@));
            assert(data.subrange(0, k + 1) =~= data.subrange(0, k as int).push(data[k as int]));
            assert(sizes@ =~= sizes_of(data.subrange(0, k + 1)));
            assert(names.deep_view() =~= names_of(data.subrange(0, k + 1)));
            k = k + 1;
        }
        assert(data.subrange(0, k as int) =~= data);
        let mut strings = self.create_string_table(&names);
        push_bytes(&mut strings, CODE_SECTION_NAME.as_bytes());
        strings.push(0);
        push_bytes(&mut strings, STRTAB_SECTION_NAME.as_bytes());
        strings.push(0);
        assert(strings@ =~= elf_string_table(data));
        if strings.len() > 0xc00 {
            return Err(AsmError::new(ErrorKind::TooLarge, String::new()));
        }
        proof {
            assert(string_table(names_of(data)).len() == 1 + string_entries(names_of(data)).len());
        }
        let mut out = self.create_elf_header(n as u32, n as u32 + 2);
        let mut program_header = self.create_program_header(program.len() as u32, &sizes);
        let mut section_header = self.create_section_header(
            program.len() as u32,
            sizes.as_slice(),
            names.as_slice(),
            strings.len() as u32,
        );
        out.append(&mut program_header);
        out.append(&mut section_header);
        assert(out@ =~= elf_headers(all));
        if out.len() > 0x400 {
            return Err(AsmError::new(ErrorKind::TooLarge, String::new()));
        }
        let fill = 0x400 - out.len();
        push_zeros(&mut out, fill);
        push_bytes(&mut out, strings.as_slice());
        let fill = 0x1000 - out.len();
        push_zeros(&mut out, fill);
        let ghost head = out@;
        let mut j: usize = 0;
        while j < n - 1
            invariant
                0 <= j <= n - 1,
                n == sections.len(),
                all == sections.deep_view(),
                data == all.drop_last(),
                out@ == head + elf_data(data.subrange(0, j as int)),
                forall|i: int| 0 <= i < data.len() ==> (#[trigger] data[i]).bytes.len() < PAGE_SIZE,
            decreases n - 1 - j,
        {
            let bytes = &sections[j].bytes;
            assert(data[j as int] == sections[j as int].deep_view());
            push_bytes(&mut out, bytes.as_slice());
            let fill = PAGE_SIZE as usize - bytes.len() % PAGE_SIZE as usize;
            push_zeros(&mut out, fill);
            assert(data.subrange(0, j + 1).drop_last() =~= data.subrange(0, j as int));
            assert(out@ =~= head + elf_data(data.subrange(0, j + 1)));
            j = j + 1;
        }
        assert(data.subrange(0, j as int) =~= data);
        push_bytes(&mut out, program.as_slice());
        assert(out@ =~= elf_image(all));
        Ok(out)
    }
}

} // verus!
