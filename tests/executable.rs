use jas::executable::{MachO, ELF};

#[test]
fn test_mach_o_lengths() {
    let mut mach_o = MachO {};
    assert_eq!(mach_o.create_header(0, 0).len(), 32);
    assert_eq!(mach_o.create_segment_command(0, "test", 0, 0, 0).len(), 72);
    assert_eq!(mach_o.create_thread_command(0).len(), 4 * 4 + 21 * 8);
    assert_eq!(mach_o.create_section("test", "test", 0, 0, 0).len(), 80);
}

#[test]
fn test_elf_header_length() {
    let mut elf = ELF {};
    assert_eq!(elf.create_elf_header(1, 3).len(), 52);
}

#[test]
fn test_section_header_length() {
    const BYTES_PER_FIELD: usize = 4;
    const FIELDS_PER_ENTRY: usize = 10;
    const ENTRIES: usize = 3;
    let mut elf = ELF {};

    assert_eq!(
        elf.create_section_header(0, &vec![], &vec![], 0).len(),
        BYTES_PER_FIELD * FIELDS_PER_ENTRY * ENTRIES
    );
}

#[test]
fn test_program_header_length() {
    let mut elf = ELF {};
    assert_eq!(elf.create_program_header(0, &vec![]).len(), 8 * 4);
}
