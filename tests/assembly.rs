use jas::assembler::assemble;
use jas::common::{DataSection, ErrorKind, IntermediateCode, Token, TokenType};
use jas::compiler::{compile, Instruction, InstructionMove};
use jas::config::Config;
use jas::executable::{MachO, ELF};
use jas::text::{parse_i32, parse_i8, parse_u32, parse_u8, push_decimal};
use jas::tokenizer::tokenize_word;

fn token(t: TokenType, value: &str) -> Token {
    Token {
        t: Some(t),
        value: value.to_string(),
    }
}

fn bytes(b: &[u8]) -> Vec<IntermediateCode> {
    b.iter().map(|x| IntermediateCode::Byte(*x)).collect()
}

fn code_of(source: &str) -> Vec<u8> {
    let sections = assemble(source).unwrap();
    let code = sections.last().unwrap();
    assert_eq!(code.name, ".text");
    code.bytes.clone()
}

#[test]
fn move_immediate_into_data_register() {
    let r = compile(vec![
        token(TokenType::Register, "⚫"),
        token(TokenType::Move, "⬅"),
        token(TokenType::Value, "1"),
    ])
    .unwrap();
    assert_eq!(r, bytes(&[0xba, 0x01, 0x00, 0x00, 0x00]));
}

#[test]
fn push_immediate_statement() {
    let r = compile(vec![
        token(TokenType::Push, "📥"),
        token(TokenType::Value, "174285409"),
    ])
    .unwrap();
    assert_eq!(r, bytes(&[0x68, 0x61, 0x62, 0x63, 0x0a]));
}

#[test]
fn jump_statement_leaves_a_displacement() {
    let r = compile(vec![
        token(TokenType::Jump, "🦘"),
        token(TokenType::LabelReference, "L"),
    ])
    .unwrap();
    assert_eq!(
        r,
        vec![
            IntermediateCode::Byte(0xe9),
            IntermediateCode::Displacement32("L".to_string())
        ]
    );
}

#[test]
fn add_statement_is_found_after_its_register() {
    let r = compile(vec![
        token(TokenType::Register, "⚫"),
        token(TokenType::Add, "➕"),
        token(TokenType::Value, "7"),
    ])
    .unwrap();
    assert_eq!(r, bytes(&[0x81, 0xc2, 0x07, 0x00, 0x00, 0x00]));
}

#[test]
fn conditional_jump_opcodes() {
    let kinds = [
        (TokenType::JumpIfEqual, 0x84),
        (TokenType::JumpIfNotEqual, 0x85),
        (TokenType::JumpIfLess, 0x8c),
        (TokenType::JumpIfLessEqual, 0x8e),
        (TokenType::JumpIfGreater, 0x8f),
        (TokenType::JumpIfGreaterEqual, 0x8d),
    ];
    for (kind, opcode) in kinds {
        let r = compile(vec![token(kind, "🦘"), token(TokenType::LabelReference, "x")]).unwrap();
        assert_eq!(
            r,
            vec![
                IntermediateCode::Byte(0x0f),
                IntermediateCode::Byte(opcode),
                IntermediateCode::Displacement32("x".to_string())
            ]
        );
    }
}

#[test]
fn compare_with_negative_immediate() {
    let r = compile(vec![
        token(TokenType::Compare, "⚖"),
        token(TokenType::Register, "🔵"),
        token(TokenType::Value, "-1"),
    ])
    .unwrap();
    assert_eq!(r, bytes(&[0x83, 0xf9, 0xff]));
}

#[test]
fn move_label_address() {
    let r = compile(vec![
        token(TokenType::Register, "🔴"),
        token(TokenType::Move, "⬅"),
        token(TokenType::LabelReference, "msg"),
    ])
    .unwrap();
    assert_eq!(
        r,
        vec![
            IntermediateCode::Byte(0xbb),
            IntermediateCode::Displacement32("msg".to_string())
        ]
    );
}

#[test]
fn statement_with_too_many_tokens_is_an_arity_error() {
    let r = compile(vec![
        token(TokenType::Jump, "🦘"),
        token(TokenType::LabelReference, "a"),
        token(TokenType::LabelReference, "b"),
    ]);
    assert_eq!(r.unwrap_err().kind, ErrorKind::Arity);
    let r = compile(vec![token(TokenType::Jump, "🦘")]);
    assert_eq!(r.unwrap_err().kind, ErrorKind::Arity);
}

#[test]
fn statement_without_instruction_is_rejected() {
    let r = compile(vec![token(TokenType::Register, "⚪"), token(TokenType::Value, "1")]);
    assert_eq!(r.unwrap_err().kind, ErrorKind::ExpectedInstruction);
    let r = compile(vec![]);
    assert_eq!(r.unwrap_err().kind, ErrorKind::ExpectedInstruction);
}

#[test]
fn unexpected_token_names_its_position() {
    let r = compile(vec![
        token(TokenType::Register, "⚪"),
        token(TokenType::Add, "⬆"),
        token(TokenType::LabelReference, "x"),
    ]);
    assert_eq!(r.unwrap_err().kind, ErrorKind::UnexpectedToken { index: 2 });
    let r = compile(vec![
        Token {
            t: None,
            value: "?".to_string(),
        },
        token(TokenType::Move, "⬅"),
        token(TokenType::Value, "1"),
    ]);
    assert_eq!(r.unwrap_err().kind, ErrorKind::UnexpectedToken { index: 0 });
}

#[test]
fn unknown_register_is_rejected() {
    let r = compile(vec![
        token(TokenType::Pop, "📤"),
        token(TokenType::Register, "❌"),
    ]);
    let e = r.unwrap_err();
    assert_eq!(e.kind, ErrorKind::InvalidRegister);
    assert_eq!(e.detail, "❌");
}

#[test]
fn out_of_range_immediates_are_parse_errors() {
    let r = compile(vec![
        token(TokenType::Interrupt, "❗"),
        token(TokenType::Value, "256"),
    ]);
    assert_eq!(r.unwrap_err().kind, ErrorKind::Parse);
    let r = compile(vec![
        token(TokenType::Push, "📥"),
        token(TokenType::Value, "128"),
        token(TokenType::Register, "⬇"),
    ]);
    assert_eq!(r.unwrap_err().kind, ErrorKind::Parse);
}

#[test]
fn decimal_parsing_follows_std() {
    assert_eq!(parse_u32("4294967295"), Some(4294967295));
    assert_eq!(parse_u32("4294967296"), None);
    assert_eq!(parse_u32("+17"), Some(17));
    assert_eq!(parse_u32(""), None);
    assert_eq!(parse_u32("+"), None);
    assert_eq!(parse_u32("-1"), None);
    assert_eq!(parse_u32("12a"), None);
    assert_eq!(parse_u8("255"), Some(255));
    assert_eq!(parse_u8("256"), None);
    assert_eq!(parse_i8("-128"), Some(-128));
    assert_eq!(parse_i8("128"), None);
    assert_eq!(parse_i8("-"), None);
    assert_eq!(parse_i32("-2147483648"), Some(-2147483648));
    assert_eq!(parse_i32("2147483648"), None);
    for text in ["0", "7", "65535", "-3", "+9", "x", "99999999999"] {
        assert_eq!(parse_u32(text), text.parse::<u32>().ok());
        assert_eq!(parse_i32(text), text.parse::<i32>().ok());
    }
}

#[test]
fn decimal_printing() {
    let mut s = String::from("at ");
    push_decimal(&mut s, 134516736);
    assert_eq!(s, "at 134516736");
    let mut z = String::new();
    push_decimal(&mut z, 0);
    assert_eq!(z, "0");
}

#[test]
fn words_of_every_kind() {
    let cases = [
        ("🖊name", TokenType::Constant, "name"),
        ("📪📪loop::", TokenType::Label, "loop"),
        ("📗data", TokenType::Section, "data"),
        ("✉target", TokenType::LabelReference, "target"),
        ("$42", TokenType::Value, "42"),
        ("42", TokenType::Memory, "42"),
        ("🦘≥", TokenType::JumpIfGreaterEqual, "🦘≥"),
        ("🦘?", TokenType::ConstantReference, "🦘?"),
    ];
    for (word, kind, value) in cases {
        let t = tokenize_word(word).unwrap();
        assert_eq!(t.t, Some(kind));
        assert_eq!(t.value, value);
    }
    assert_eq!(tokenize_word("$x").unwrap_err().kind, ErrorKind::InvalidValue);
}

#[test]
fn add_program_assembles_to_its_bytes() {
    assert_eq!(code_of("⚫ ⬆ $7"), vec![0x81, 0xc2, 0x07, 0x00, 0x00, 0x00]);
}

#[test]
fn add_program_runs_from_the_entry_point() {
    let sections = assemble("⚫ ⬆ $7").unwrap();
    assert_eq!(sections.len(), 1);
    let image = ELF {}.image(&sections).unwrap();
    assert_eq!(&image[0..4], &[0x7f, 0x45, 0x4c, 0x46]);
    // e_entry: the code's virtual address.
    assert_eq!(&image[24..28], &0x0804_9000u32.to_le_bytes());
    // The code's program header maps file offset 0x1000 at that address.
    assert_eq!(&image[52 + 4..52 + 12], &[0x00, 0x10, 0x00, 0x00, 0x00, 0x90, 0x04, 0x08]);
    assert_eq!(&image[0x1000..], &[0x81, 0xc2, 0x07, 0x00, 0x00, 0x00]);
}

#[test]
fn data_section_and_forward_jump() {
    let source = "📗data 1 2 3\n🦘 ✉end\n↩\n📪end:\n↩";
    let sections = assemble(source).unwrap();
    assert_eq!(sections.len(), 2);
    assert_eq!(sections[0].name, "data");
    assert_eq!(
        sections[0].bytes,
        vec![1, 0, 0, 0, 2, 0, 0, 0, 3, 0, 0, 0]
    );
    assert_eq!(sections[1].bytes, vec![0xe9, 0x01, 0x00, 0x00, 0x00, 0xc3, 0xc3]);
    let image = ELF {}.image(&sections).unwrap();
    assert_eq!(&image[0x1000..0x100c], &[1, 0, 0, 0, 2, 0, 0, 0, 3, 0, 0, 0]);
    assert_eq!(&image[0x2000..], &[0xe9, 0x01, 0x00, 0x00, 0x00, 0xc3, 0xc3]);
    assert_eq!(&image[24..28], &0x0804_a000u32.to_le_bytes());
}

#[test]
fn forward_and_backward_jumps_are_relative_to_the_instruction_end() {
    let source = "📪top:\n⚪ ⬆ $1\n🦘 ✉bottom\n🦘 ✉top\n📪bottom:\n↩";
    let code = code_of(source);
    assert_eq!(code.len(), 17);
    // Forward: bottom (16) - end of the first jump (11).
    assert_eq!(&code[6..11], &[0xe9, 0x05, 0x00, 0x00, 0x00]);
    // Backward: top (0) - end of the second jump (16).
    assert_eq!(&code[11..16], &[0xe9, 0xf0, 0xff, 0xff, 0xff]);
    // The same jumps further into the program resolve to the same distances.
    let shifted = code_of(&format!("⚪ ⬆ $1\n⚪ ⬆ $1\n{}", source));
    assert_eq!(&shifted[18..28], &code[6..16]);
}

#[test]
fn displacement_takes_as_many_units_as_bytes() {
    let code = code_of("🦘 ✉next\n📪next:");
    assert_eq!(code, vec![0xe9, 0x00, 0x00, 0x00, 0x00]);
    let code = code_of("🦘= ✉next\n📪next:\n📞 ✉next");
    assert_eq!(code, vec![0x0f, 0x84, 0x00, 0x00, 0x00, 0x00, 0xe8, 0xfb, 0xff, 0xff, 0xff]);
}

#[test]
fn section_name_is_a_constant_for_its_address() {
    let source = "📗first 7\n📗second 8\n⚪ ⬅ second\n🖊exit $1\n🔴 ⬅ exit";
    let code = code_of(source);
    assert_eq!(
        code,
        vec![0xb8, 0x00, 0xa0, 0x04, 0x08, 0xbb, 0x01, 0x00, 0x00, 0x00]
    );
}

#[test]
fn comments_and_blank_lines_are_skipped() {
    let code = code_of("# a program\n\n   ↩  # done\n");
    assert_eq!(code, vec![0xc3]);
}

#[test]
fn assembling_twice_gives_the_same_image() {
    let source = "📗data 5\n📪a:\n⚪ ⬅ data\n🦘 ✉a";
    let first = assemble(source).unwrap();
    let second = assemble(source).unwrap();
    let one = ELF {}.image(&first).unwrap();
    let two = ELF {}.image(&second).unwrap();
    assert_eq!(one, two);
    let one = MachO {}.image(&first).unwrap();
    let two = MachO {}.image(&second).unwrap();
    assert_eq!(one, two);
}

#[test]
fn failures_are_told_apart() {
    let unknown_label = assemble("🦘 ✉nowhere").unwrap_err();
    assert_eq!(unknown_label.kind, ErrorKind::UnknownLabel);
    assert_eq!(unknown_label.detail, "nowhere");
    let arity = assemble("🦘 ✉a ✉b\n📪a:").unwrap_err();
    assert_eq!(arity.kind, ErrorKind::Arity);
    let constant = assemble("⚪ ⬅ missing").unwrap_err();
    assert_eq!(constant.kind, ErrorKind::UnknownConstant);
    let value = assemble("⚪ ⬅ $SYS_EXIT").unwrap_err();
    assert_eq!(value.kind, ErrorKind::InvalidValue);
    let data = assemble("📗d 1 x").unwrap_err();
    assert_eq!(data.kind, ErrorKind::DataToken);
    let wide = assemble("📗d 4294967295").unwrap_err();
    assert_eq!(wide.kind, ErrorKind::Parse);
    let label = assemble("📪a: ↩").unwrap_err();
    assert_eq!(label.kind, ErrorKind::Arity);
}

#[test]
fn negative_data_word_is_not_a_number() {
    let sections = assemble("📗d -1").unwrap_err();
    // A leading '-' makes the word a constant reference, not a number.
    assert_eq!(sections.kind, ErrorKind::DataToken);
}

#[test]
fn mach_o_image_layout() {
    let sections = vec![
        DataSection {
            name: "data".to_string(),
            bytes: vec![1, 2, 3],
        },
        DataSection {
            name: ".text".to_string(),
            bytes: vec![0xc3],
        },
    ];
    let image = MachO {}.image(&sections).unwrap();
    assert_eq!(image.len(), 0x2000);
    assert_eq!(&image[0..4], &0xfeed_facfu32.to_le_bytes());
    // Three load commands: two segments (the second with two sections) and the thread.
    assert_eq!(&image[16..20], &3u32.to_le_bytes());
    assert_eq!(&image[20..24], &(72 + 72 + 160 + 184u32).to_le_bytes());
    // The code section is renamed.
    let text_section = 32 + 72 + 72 + 80;
    assert_eq!(&image[text_section..text_section + 6], b"__text");
    // Its file offset follows the data.
    assert_eq!(&image[text_section + 48..text_section + 52], &0x1003u32.to_le_bytes());
    // The thread starts at the code.
    let rip = 32 + 72 + 72 + 160 + 16 + 16 * 8;
    assert_eq!(&image[rip..rip + 8], &0x1_0000_1000u64.to_le_bytes());
    assert_eq!(&image[0x1000..0x1004], &[1, 2, 3, 0xc3]);
}

#[test]
fn elf_rejects_an_oversized_data_section() {
    let sections = vec![
        DataSection {
            name: "big".to_string(),
            bytes: vec![0; 0x1000],
        },
        DataSection {
            name: ".text".to_string(),
            bytes: vec![0xc3],
        },
    ];
    assert_eq!(ELF {}.image(&sections).unwrap_err().kind, ErrorKind::TooLarge);
}

#[test]
fn elf_string_table_and_section_header() {
    let mut elf = ELF {};
    let a = "ab".to_string();
    let table = elf.create_string_table(&vec![&a]);
    assert_eq!(table, vec![0, b'a', b'b', 0]);
    let header = elf.create_section_header(9, &[3], &[&a], 20);
    assert_eq!(header.len(), 4 * 40);
    // The code entry is named after "ab\0", the string table after ".text\0".
    assert_eq!(&header[80..84], &4u32.to_le_bytes());
    assert_eq!(&header[120..124], &10u32.to_le_bytes());
    assert_eq!(&header[120 + 20..120 + 24], &20u32.to_le_bytes());
}

#[test]
fn usage_without_a_file() {
    let r = Config::new(vec!["jas".to_string()]);
    assert_eq!(r.err().unwrap(), "Usage: jas program.jas");
    let c = Config::new(vec!["jas".to_string(), "prog.jas".to_string()]).ok().unwrap();
    assert_eq!(c.filename, "prog.jas");
}

#[test]
fn move_validation_accepts_exactly_its_shape() {
    let all = [
        TokenType::Move,
        TokenType::Add,
        TokenType::Subtract,
        TokenType::Multiply,
        TokenType::JumpIfEqual,
        TokenType::JumpIfNotEqual,
        TokenType::JumpIfLess,
        TokenType::JumpIfLessEqual,
        TokenType::JumpIfGreater,
        TokenType::JumpIfGreaterEqual,
        TokenType::Jump,
        TokenType::Call,
        TokenType::Push,
        TokenType::Pop,
        TokenType::Value,
        TokenType::Memory,
        TokenType::Register,
        TokenType::Return,
        TokenType::Compare,
        TokenType::Interrupt,
        TokenType::Label,
        TokenType::LabelReference,
        TokenType::Constant,
        TokenType::ConstantReference,
        TokenType::Section,
    ];
    let mut kinds: Vec<Option<TokenType>> = all.iter().map(|k| Some(*k)).collect();
    kinds.push(None);
    let accepted = |k: &Option<TokenType>, set: &[TokenType]| match k {
        Some(k) => set.contains(k),
        None => false,
    };
    for a in &kinds {
        for b in &kinds {
            for c in &kinds {
                let register = Token { t: *a, value: "⚪".to_string() };
                let operation = Token { t: *b, value: "⬅".to_string() };
                let operand = Token { t: *c, value: "1".to_string() };
                let instruction = InstructionMove {
                    register: &register,
                    operation: &operation,
                    operand: &operand,
                };
                let expected = accepted(a, &[TokenType::Register])
                    && accepted(b, &[TokenType::Move])
                    && accepted(
                        c,
                        &[TokenType::Value, TokenType::Register, TokenType::LabelReference],
                    );
                assert_eq!(instruction.validate().is_ok(), expected);
            }
        }
    }
}

#[test]
fn unexpected_token_error_quotes_the_statement_and_the_accepted_kinds() {
    let e = compile(vec![
        token(TokenType::Interrupt, "❗"),
        token(TokenType::Add, "⬆"),
    ])
    .unwrap_err();
    assert_eq!(e.kind, ErrorKind::UnexpectedToken { index: 1 });
    assert_eq!(e.detail, " ❗ ⬆");
    assert_eq!(e.expected, vec![TokenType::Value]);
}

#[test]
fn compare_needs_a_register_on_the_left() {
    let e = compile(vec![
        token(TokenType::Compare, "⚖"),
        token(TokenType::Value, "5"),
        token(TokenType::Register, "⚪"),
    ])
    .unwrap_err();
    assert_eq!(e.kind, ErrorKind::UnexpectedToken { index: 1 });
    assert_eq!(e.expected, vec![TokenType::Register]);
}

#[test]
fn errors_name_what_they_are_about() {
    let e = compile(vec![token(TokenType::Register, "⚪"), token(TokenType::Value, "5")])
        .unwrap_err();
    assert_eq!(e.kind, ErrorKind::ExpectedInstruction);
    assert_eq!(e.detail, " ⚪ 5");
    let e = compile(vec![
        token(TokenType::Register, "X"),
        token(TokenType::Move, "⬅"),
        token(TokenType::Register, "⚪"),
    ])
    .unwrap_err();
    assert_eq!(e.kind, ErrorKind::InvalidRegister);
    assert_eq!(e.detail, "X");
    let e = assemble("⚪ ⬅ later\n🖊later $1").unwrap_err();
    assert_eq!(e.kind, ErrorKind::UnknownConstant);
    assert_eq!(e.detail, "later");
}

#[test]
fn push_from_negative_offset() {
    let r = compile(vec![
        token(TokenType::Push, "📥"),
        token(TokenType::Value, "-4"),
        token(TokenType::Register, "⬇"),
    ])
    .unwrap();
    assert_eq!(r, bytes(&[0xff, 0x75, 0xfc]));
}

#[test]
fn section_header_with_many_unnamed_sections() {
    let mut elf = ELF {};
    let n = 0x10000;
    let sizes = vec![0u32; n];
    let name = String::new();
    let names: Vec<&String> = vec![&name; n];
    let header = elf.create_section_header(0, &sizes, &names, 0);
    assert_eq!(header.len(), 40 * (n + 3));
    let program = elf.create_program_header(0, &sizes);
    assert_eq!(program.len(), 32 * (n + 1));
}
