//! Types shared by the tokenizer, the encoder, the assembler and the
//! executable backends.

use vstd::prelude::*;

verus! {

/// Base of the virtual addresses given to data sections in a 32-bit image.
pub const DATA_SECTION_VIRTUAL_START_32: u32 = 0x0804_9000;

/// Base of the virtual addresses given to sections in a 64-bit image.
pub const DATA_SECTION_VIRTUAL_START_64: u64 = 0x1_0000_0000;

/// Base of the virtual addresses that section declarations resolve to.
pub const DATA_SECTION_VIRTUAL_START: u32 = DATA_SECTION_VIRTUAL_START_32;

/// File offset of the first data section in an ELF image.
pub const DATA_SECTION_PHYSICAL_START: u32 = 0x1000;

/// Every section is placed on a page of its own.
pub const PAGE_SIZE: u32 = 0x1000;

/// Name of the section that holds the executable code.
pub const CODE_SECTION_NAME: &'static str = ".text";

/// The category of a token.
#[derive(Clone, Copy, Debug, PartialEq, Eq, Hash, Structural)]
pub enum TokenType {
    Move,
    Add,
    Subtract,
    Multiply,
    JumpIfEqual,
    JumpIfNotEqual,
    JumpIfLess,
    JumpIfLessEqual,
    JumpIfGreater,
    JumpIfGreaterEqual,
    Jump,
    Call,
    Push,
    Pop,
    Value,
    Memory,
    Register,
    Return,
    Compare,
    Interrupt,
    Label,
    LabelReference,
    Constant,
    ConstantReference,
    Section,
}

impl DeepView for TokenType {
    type V = TokenType;

    open spec fn deep_view(&self) -> TokenType {
        *self
    }
}

/// One token of a source line. `t == None` marks a token that could not be
/// classified.
#[derive(Clone, Debug)]
pub struct Token {
    pub t: Option<TokenType>,
    pub value: String,
}

impl Token {
    /// A copy of the token.
    pub fn duplicate(&self) -> (r: Token)
        ensures
            r@ == self@,
    {
        Token { t: self.t, value: self.value.clone() }
    }
}

/// What a token stands for: its kind and its text.
pub struct TokenModel {
    pub t: Option<TokenType>,
    pub value: Seq<char>,
}

impl View for Token {
    type V = TokenModel;

    open spec fn view(&self) -> TokenModel {
        TokenModel { t: self.t, value: self.value@ }
    }
}

impl DeepView for Token {
    type V = TokenModel;

    open spec fn deep_view(&self) -> TokenModel {
        self@
    }
}

/// One unit of an encoded instruction, before labels are resolved.
#[derive(Clone, Debug, PartialEq)]
pub enum IntermediateCode {
    Byte(u8),
    Displacement32(String),
    Padding,
}

/// What a unit of intermediate code stands for.
pub enum CodeUnit {
    Byte(u8),
    Displacement32(Seq<char>),
    Padding,
}

impl DeepView for IntermediateCode {
    type V = CodeUnit;

    open spec fn deep_view(&self) -> CodeUnit {
        match self {
            IntermediateCode::Byte(b) => CodeUnit::Byte(*b),
            IntermediateCode::Displacement32(s) => CodeUnit::Displacement32(s@),
            IntermediateCode::Padding => CodeUnit::Padding,
        }
    }
}

/// A named block of bytes of the output image.
#[derive(Clone, Debug)]
pub struct DataSection {
    pub name: String,
    pub bytes: Vec<u8>,
}

/// What a section stands for: its name and its bytes.
pub struct SectionModel {
    pub name: Seq<char>,
    pub bytes: Seq<u8>,
}

impl DeepView for DataSection {
    type V = SectionModel;

    open spec fn deep_view(&self) -> SectionModel {
        SectionModel { name: self.name@, bytes: self.bytes@ }
    }
}

/// The layout of the output file.
#[derive(Clone, Copy, Debug, PartialEq, Eq, Structural)]
pub enum ExecutableFormat {
    ELF,
    MachO,
}

/// The ways in which assembling a program can fail.
#[derive(Clone, Copy, Debug, PartialEq, Eq, Structural)]
pub enum ErrorKind {
    /// A statement has more or fewer tokens than its instruction takes.
    Arity,
    /// The token at `index` of a statement has no kind, or one that its
    /// position does not accept.
    UnexpectedToken { index: usize },
    /// No token of a statement names an instruction.
    ExpectedInstruction,
    /// A register operand names no known register.
    InvalidRegister,
    /// A numeric literal does not parse for the width it is used at.
    Parse,
    /// A `$` value in the source is not followed by a number.
    InvalidValue,
    /// A data section holds a token that is not a number.
    DataToken,
    /// A constant is used before it is declared.
    UnknownConstant,
    /// A jump, call or address refers to a label that is never declared.
    UnknownLabel,
    /// The program or its sections outgrow the 32-bit address space.
    TooLarge,
}

/// An error, with the source text that it is about and, for a token of
/// the wrong kind, the kinds that its position accepts.
#[derive(Clone, Debug)]
pub struct AsmError {
    pub kind: ErrorKind,
    pub detail: String,
    pub expected: Vec<TokenType>,
}

/// What an error stands for.
pub struct ErrorModel {
    pub kind: ErrorKind,
    pub detail: Seq<char>,
    pub expected: Seq<TokenType>,
}

/// An error of the given kind about `detail`, with no accepted kinds.
pub open spec fn fault(kind: ErrorKind, detail: Seq<char>) -> ErrorModel {
    ErrorModel { kind, detail, expected: Seq::empty() }
}

impl AsmError {
    pub open spec fn model(&self) -> ErrorModel {
        ErrorModel { kind: self.kind, detail: self.detail@, expected: self.expected@ }
    }

    /// An error of the given kind about the text `detail`.
    pub fn new(kind: ErrorKind, detail: String) -> (r: AsmError)
        ensures
            r.kind == kind,
            r.detail@ == detail@,
            r.model() == fault(kind, detail@),
    {
        AsmError { kind, detail, expected: Vec::new() }
    }
}

/// The four bytes of `x`, least significant first.
pub open spec fn le_u32(x: u32) -> Seq<u8> {
    seq![
        (x % 0x100) as u8,
        (x / 0x100 % 0x100) as u8,
        (x / 0x1_0000 % 0x100) as u8,
        (x / 0x100_0000 % 0x100) as u8,
    ]
}

/// The eight bytes of `x`, least significant first.
#[verifier::opaque]
pub open spec fn le_u64(x: u64) -> Seq<u8> {
    le_u32((x % 0x1_0000_0000) as u32) + le_u32((x / 0x1_0000_0000) as u32)
}

/// Appends the little-endian bytes of `x` to `out`.
pub fn push_u32(out: &mut Vec<u8>, x: u32)
    ensures
        final(out)@ == old(out)@ + le_u32(x),
{
    out.push((x & 0xff) as u8);
    out.push(((x >> 8) & 0xff) as u8);
    out.push(((x >> 16) & 0xff) as u8);
    out.push(((x >> 24) & 0xff) as u8);
    proof {
        assert((x & 0xff) == x % 0x100) by (bit_vector);
        assert(((x >> 8) & 0xff) == x / 0x100 % 0x100) by (bit_vector);
        assert(((x >> 16) & 0xff) == x / 0x1_0000 % 0x100) by (bit_vector);
        assert(((x >> 24) & 0xff) == x / 0x100_0000 % 0x100) by (bit_vector);
        assert(final(out)@ =~= old(out)@ + le_u32(x));
    }
}

/// Appends the little-endian bytes of `x` to `out`.
pub fn push_u64(out: &mut Vec<u8>, x: u64)
    ensures
        final(out)@ == old(out)@ + le_u64(x),
{
    let lo = (x & 0xffff_ffff) as u32;
    let hi = (x >> 32) as u32;
    assert((x & 0xffff_ffff) == x % 0x1_0000_0000) by (bit_vector);
    assert((x >> 32) == x / 0x1_0000_0000) by (bit_vector);
    push_u32(out, lo);
    push_u32(out, hi);
    reveal(le_u64);
    assert(final(out)@ =~= old(out)@ + le_u64(x));
}

} // verus!
