//! The instruction encoder: checks the tokens of one statement against the
//! shape of its instruction and encodes it into intermediate code.

use vstd::prelude::*;
use vstd::string::*;

use crate::common::{
    fault, le_u32, AsmError, CodeUnit, ErrorKind, ErrorModel, IntermediateCode, Token, TokenModel,
    TokenType,
};
use crate::text::{parse_i8, parse_signed, parse_u32, parse_u8, parse_unsigned};

verus! {

// ---------------------------------------------------------------------------
// The grammar of a statement
// ---------------------------------------------------------------------------

/// Whether `t` has a kind, and one that `accepted` holds.
pub open spec fn kind_accepted(accepted: Seq<TokenType>, t: TokenModel) -> bool {
    t.t is Some && accepted.contains(t.t->0)
}

/// The first position from `i` on whose token the shape does not accept, or
/// `given.len()` if there is none.
pub open spec fn first_mismatch(expected: Seq<Seq<TokenType>>, given: Seq<TokenModel>, i: nat) -> nat
    decreases given.len() - i,
{
    if i >= given.len() {
        given.len()
    } else if !kind_accepted(expected[i as int], given[i as int]) {
        i
    } else {
        first_mismatch(expected, given, i + 1)
    }
}

/// The outcome of checking `given` against the shape `expected`: one set of
/// accepted kinds per position.
pub open spec fn grammar_check(expected: Seq<Seq<TokenType>>, given: Seq<TokenModel>) -> Result<
    (),
    ErrorModel,
> {
    if expected.len() != given.len() {
        Err(fault(ErrorKind::Arity, joined(given)))
    } else if first_mismatch(expected, given, 0) < given.len() {
        let index = first_mismatch(expected, given, 0);
        Err(
            ErrorModel {
                kind: ErrorKind::UnexpectedToken { index: index as usize },
                detail: joined(given),
                expected: expected[index as int],
            },
        )
    } else {
        Ok(())
    }
}

/// The text of `tokens`, each preceded by a space.
pub open spec fn joined(tokens: Seq<TokenModel>) -> Seq<char>
    decreases tokens.len(),
{
    if tokens.len() == 0 {
        Seq::empty()
    } else {
        joined(tokens.drop_last()) + seq![' '] + tokens.last().value
    }
}

proof fn lemma_first_mismatch(expected: Seq<Seq<TokenType>>, given: Seq<TokenModel>, i: nat)
    requires
        i <= given.len(),
        expected.len() == given.len(),
    ensures
        i <= first_mismatch(expected, given, i) <= given.len(),
        first_mismatch(expected, given, i) < given.len() ==> !kind_accepted(
            expected[first_mismatch(expected, given, i) as int],
            given[first_mismatch(expected, given, i) as int],
        ),
        forall|j: int|
            i <= j < first_mismatch(expected, given, i) ==> kind_accepted(
                #[trigger] expected[j],
                given[j],
            ),
    decreases given.len() - i,
{
    if i < given.len() && kind_accepted(expected[i as int], given[i as int]) {
        lemma_first_mismatch(expected, given, i + 1);
    }
}

/// A statement passes the grammar check exactly when it has one token per
/// position of the shape and each token's kind is one that its position
/// accepts.
pub proof fn lemma_grammar_check_accepts_exactly_the_shape(
    expected: Seq<Seq<TokenType>>,
    given: Seq<TokenModel>,
)
    ensures
        grammar_check(expected, given) is Ok <==> (expected.len() == given.len() && forall|i: int|
            0 <= i < given.len() ==> kind_accepted(#[trigger] expected[i], given[i])),
        (grammar_check(expected, given) is Err && grammar_check(expected, given)->Err_0.kind
            == ErrorKind::Arity) <==> expected.len() != given.len(),
{
    if expected.len() == given.len() {
        lemma_first_mismatch(expected, given, 0);
    }
}

// ---------------------------------------------------------------------------
// Encoding
// ---------------------------------------------------------------------------

/// The 3-bit code of the register that `name` spells.
pub open spec fn reg_code(name: Seq<char>) -> Option<u8> {
    if name == seq!['⚪'] {
        Some(0u8)
    } else if name == seq!['🔵'] {
        Some(1u8)
    } else if name == seq!['⚫'] {
        Some(2u8)
    } else if name == seq!['🔴'] {
        Some(3u8)
    } else if name == seq!['◀'] {
        Some(4u8)
    } else if name == seq!['⬇'] {
        Some(5u8)
    } else {
        None
    }
}

/// The register code of a token, or the error for a name that is no register.
pub open spec fn reg_of(t: TokenModel) -> Result<u8, ErrorModel> {
    match reg_code(t.value) {
        Some(c) => Ok(c),
        None => Err(fault(ErrorKind::InvalidRegister, t.value)),
    }
}

/// A ModRM byte.
pub open spec fn modrm(mod_: u8, reg_opcode: u8, rm: u8) -> u8 {
    (mod_ * 64 + reg_opcode * 8 + rm) as u8
}

/// Concrete bytes as intermediate code.
pub open spec fn units(bytes: Seq<u8>) -> Seq<CodeUnit> {
    bytes.map_values(|b: u8| CodeUnit::Byte(b))
}

/// A 32-bit immediate operand, least significant byte first.
pub open spec fn imm32(x: u32) -> Seq<CodeUnit> {
    units(le_u32(x))
}

/// The value of a 32-bit unsigned immediate.
pub open spec fn imm32_of(t: TokenModel) -> Result<u32, ErrorModel> {
    match parse_unsigned(t.value, u32::MAX as nat) {
        Some(v) => Ok(v as u32),
        None => Err(fault(ErrorKind::Parse, t.value)),
    }
}

/// The byte of a signed 8-bit displacement or immediate.
pub open spec fn disp8_of(t: TokenModel) -> Result<u8, ErrorModel> {
    match parse_signed(t.value, i8::MIN as int, i8::MAX as nat) {
        Some(v) => Ok(
            (if v < 0 {
                v + 256
            } else {
                v
            }) as u8,
        ),
        None => Err(fault(ErrorKind::Parse, t.value)),
    }
}

pub open spec fn move_shape() -> Seq<Seq<TokenType>> {
    seq![
        seq![TokenType::Register],
        seq![TokenType::Move],
        seq![TokenType::Value, TokenType::Register, TokenType::LabelReference],
    ]
}

/// `register ⬅ operand`: an immediate, a register or a label's address.
pub open spec fn move_code(register: TokenModel, operation: TokenModel, operand: TokenModel) -> Result<
    Seq<CodeUnit>,
    ErrorModel,
> {
    match grammar_check(move_shape(), seq![register, operation, operand]) {
        Err(k) => Err(k),
        Ok(_) => match reg_of(register) {
            Err(k) => Err(k),
            Ok(dst) => if operand.t == Some(TokenType::Value) {
                match imm32_of(operand) {
                    Err(k) => Err(k),
                    Ok(v) => Ok(seq![CodeUnit::Byte((0xb8 + dst) as u8)] + imm32(v)),
                }
            } else if operand.t == Some(TokenType::LabelReference) {
                Ok(
                    seq![
                        CodeUnit::Byte((0xb8 + dst) as u8),
                        CodeUnit::Displacement32(operand.value),
                    ],
                )
            } else {
                match reg_of(operand) {
                    Err(k) => Err(k),
                    Ok(src) => Ok(seq![CodeUnit::Byte(0x89), CodeUnit::Byte(modrm(3, src, dst))]),
                }
            },
        },
    }
}

pub open spec fn move_modrm_shape() -> Seq<Seq<TokenType>> {
    seq![
        seq![TokenType::Register],
        seq![TokenType::Move],
        seq![TokenType::Value],
        seq![TokenType::Register],
    ]
}

/// `register ⬅ offset base`: a load from `base + offset`.
pub open spec fn move_modrm_code(
    register: TokenModel,
    operation: TokenModel,
    offset: TokenModel,
    operand: TokenModel,
) -> Result<Seq<CodeUnit>, ErrorModel> {
    match grammar_check(move_modrm_shape(), seq![register, operation, offset, operand]) {
        Err(k) => Err(k),
        Ok(_) => match reg_of(register) {
            Err(k) => Err(k),
            Ok(dst) => match reg_of(operand) {
                Err(k) => Err(k),
                Ok(base) => match disp8_of(offset) {
                    Err(k) => Err(k),
                    Ok(d) => Ok(
                        seq![
                            CodeUnit::Byte(0x8b),
                            CodeUnit::Byte(modrm(1, dst, base)),
                            CodeUnit::Byte(d),
                        ],
                    ),
                },
            },
        },
    }
}

pub open spec fn add_subtract_shape() -> Seq<Seq<TokenType>> {
    seq![
        seq![TokenType::Register],
        seq![TokenType::Add, TokenType::Subtract],
        seq![TokenType::Value, TokenType::Register],
    ]
}

/// `register ⬆ operand` and `register ➖ operand`.
pub open spec fn add_subtract_code(
    register: TokenModel,
    operation: TokenModel,
    operand: TokenModel,
) -> Result<Seq<CodeUnit>, ErrorModel> {
    let is_add = operation.t == Some(TokenType::Add);
    match grammar_check(add_subtract_shape(), seq![register, operation, operand]) {
        Err(k) => Err(k),
        Ok(_) => match reg_of(register) {
            Err(k) => Err(k),
            Ok(dst) => if operand.t == Some(TokenType::Value) {
                match imm32_of(operand) {
                    Err(k) => Err(k),
                    Ok(v) => Ok(
                        seq![
                            CodeUnit::Byte(0x81),
                            CodeUnit::Byte(modrm(3, if is_add { 0 } else { 5 }, dst)),
                        ] + imm32(v),
                    ),
                }
            } else {
                match reg_of(operand) {
                    Err(k) => Err(k),
                    Ok(src) => Ok(
                        seq![
                            CodeUnit::Byte(if is_add { 0x01u8 } else { 0x29u8 }),
                            CodeUnit::Byte(modrm(3, src, dst)),
                        ],
                    ),
                }
            },
        },
    }
}

pub open spec fn multiply_shape() -> Seq<Seq<TokenType>> {
    seq![
        seq![TokenType::Register],
        seq![TokenType::Multiply],
        seq![TokenType::Value, TokenType::Register],
    ]
}

/// `register ✖ operand`.
pub open spec fn multiply_code(register: TokenModel, operation: TokenModel, operand: TokenModel) -> Result<
    Seq<CodeUnit>,
    ErrorModel,
> {
    match grammar_check(multiply_shape(), seq![register, operation, operand]) {
        Err(k) => Err(k),
        Ok(_) => match reg_of(register) {
            Err(k) => Err(k),
            Ok(dst) => if operand.t == Some(TokenType::Value) {
                match imm32_of(operand) {
                    Err(k) => Err(k),
                    Ok(v) => Ok(
                        seq![CodeUnit::Byte(0x69), CodeUnit::Byte(modrm(3, dst, dst))] + imm32(v),
                    ),
                }
            } else {
                match reg_of(operand) {
                    Err(k) => Err(k),
                    Ok(src) => Ok(
                        seq![
                            CodeUnit::Byte(0x0f),
                            CodeUnit::Byte(0xaf),
                            CodeUnit::Byte(modrm(3, dst, src)),
                        ],
                    ),
                }
            },
        },
    }
}

/// The shape of an instruction made of an operation and a label reference.
pub open spec fn branch_shape(operation: TokenType) -> Seq<Seq<TokenType>> {
    seq![seq![operation], seq![TokenType::LabelReference]]
}

/// `🦘 label`.
pub open spec fn jump_code(operation: TokenModel, operand: TokenModel) -> Result<
    Seq<CodeUnit>,
    ErrorModel,
> {
    match grammar_check(branch_shape(TokenType::Jump), seq![operation, operand]) {
        Err(k) => Err(k),
        Ok(_) => Ok(seq![CodeUnit::Byte(0xe9), CodeUnit::Displacement32(operand.value)]),
    }
}

/// `📞 label`.
pub open spec fn call_code(operation: TokenModel, operand: TokenModel) -> Result<
    Seq<CodeUnit>,
    ErrorModel,
> {
    match grammar_check(branch_shape(TokenType::Call), seq![operation, operand]) {
        Err(k) => Err(k),
        Ok(_) => Ok(seq![CodeUnit::Byte(0xe8), CodeUnit::Displacement32(operand.value)]),
    }
}

/// `↩`.
pub open spec fn return_code(operation: TokenModel) -> Result<Seq<CodeUnit>, ErrorModel> {
    match grammar_check(seq![seq![TokenType::Return]], seq![operation]) {
        Err(k) => Err(k),
        Ok(_) => Ok(seq![CodeUnit::Byte(0xc3)]),
    }
}

/// `❗ value`.
pub open spec fn interrupt_code(operation: TokenModel, operand: TokenModel) -> Result<
    Seq<CodeUnit>,
    ErrorModel,
> {
    match grammar_check(
        seq![seq![TokenType::Interrupt], seq![TokenType::Value]],
        seq![operation, operand],
    ) {
        Err(k) => Err(k),
        Ok(_) => match parse_unsigned(operand.value, u8::MAX as nat) {
            None => Err(fault(ErrorKind::Parse, operand.value)),
            Some(v) => Ok(seq![CodeUnit::Byte(0xcd), CodeUnit::Byte(v as u8)]),
        },
    }
}

pub open spec fn push_shape() -> Seq<Seq<TokenType>> {
    seq![seq![TokenType::Push], seq![TokenType::Value, TokenType::Register]]
}

/// `📥 operand`: an immediate or a register.
pub open spec fn push_code(operation: TokenModel, operand: TokenModel) -> Result<
    Seq<CodeUnit>,
    ErrorModel,
> {
    match grammar_check(push_shape(), seq![operation, operand]) {
        Err(k) => Err(k),
        Ok(_) => if operand.t == Some(TokenType::Value) {
            match imm32_of(operand) {
                Err(k) => Err(k),
                Ok(v) => Ok(seq![CodeUnit::Byte(0x68)] + imm32(v)),
            }
        } else {
            match reg_of(operand) {
                Err(k) => Err(k),
                Ok(r) => Ok(seq![CodeUnit::Byte((0x50 + r) as u8)]),
            }
        },
    }
}

pub open spec fn push_modrm_shape() -> Seq<Seq<TokenType>> {
    seq![seq![TokenType::Push], seq![TokenType::Value], seq![TokenType::Register]]
}

/// `📥 offset base`: a push of the value at `base + offset`.
pub open spec fn push_modrm_code(operation: TokenModel, offset: TokenModel, register: TokenModel) -> Result<
    Seq<CodeUnit>,
    ErrorModel,
> {
    match grammar_check(push_modrm_shape(), seq![operation, offset, register]) {
        Err(k) => Err(k),
        Ok(_) => match reg_of(register) {
            Err(k) => Err(k),
            Ok(base) => match disp8_of(offset) {
                Err(k) => Err(k),
                Ok(d) => Ok(
                    seq![CodeUnit::Byte(0xff), CodeUnit::Byte(modrm(1, 6, base)), CodeUnit::Byte(d)],
                ),
            },
        },
    }
}

/// `📤 register`.
pub open spec fn pop_code(operation: TokenModel, operand: TokenModel) -> Result<
    Seq<CodeUnit>,
    ErrorModel,
> {
    match grammar_check(
        seq![seq![TokenType::Pop], seq![TokenType::Register]],
        seq![operation, operand],
    ) {
        Err(k) => Err(k),
        Ok(_) => match reg_of(operand) {
            Err(k) => Err(k),
            Ok(r) => Ok(seq![CodeUnit::Byte((0x58 + r) as u8)]),
        },
    }
}

pub open spec fn compare_shape() -> Seq<Seq<TokenType>> {
    seq![
        seq![TokenType::Compare],
        seq![TokenType::Register],
        seq![TokenType::Register, TokenType::Value],
    ]
}

/// `⚖ left right`. The operands keep their written order: after `⚖ x y` a
/// jump on "less" is taken when `x < y`.
pub open spec fn compare_code(
    operation: TokenModel,
    left_operand: TokenModel,
    right_operand: TokenModel,
) -> Result<Seq<CodeUnit>, ErrorModel> {
    match grammar_check(compare_shape(), seq![operation, left_operand, right_operand]) {
        Err(k) => Err(k),
        Ok(_) => match reg_of(left_operand) {
            Err(k) => Err(k),
            Ok(left) => if right_operand.t == Some(TokenType::Register) {
                match reg_of(right_operand) {
                    Err(k) => Err(k),
                    Ok(right) => Ok(seq![CodeUnit::Byte(0x39), CodeUnit::Byte(modrm(3, right, left))]),
                }
            } else {
                match disp8_of(right_operand) {
                    Err(k) => Err(k),
                    Ok(v) => Ok(
                        seq![CodeUnit::Byte(0x83), CodeUnit::Byte(modrm(3, 7, left)), CodeUnit::Byte(v)],
                    ),
                }
            },
        },
    }
}

pub open spec fn jump_if_kinds() -> Seq<TokenType> {
    seq![
        TokenType::JumpIfEqual,
        TokenType::JumpIfNotEqual,
        TokenType::JumpIfLess,
        TokenType::JumpIfLessEqual,
        TokenType::JumpIfGreater,
        TokenType::JumpIfGreaterEqual,
    ]
}

/// The second opcode byte of a conditional near jump.
pub open spec fn jump_if_opcode(k: TokenType) -> u8 {
    match k {
        TokenType::JumpIfEqual => 0x84,
        TokenType::JumpIfNotEqual => 0x85,
        TokenType::JumpIfLess => 0x8c,
        TokenType::JumpIfLessEqual => 0x8e,
        TokenType::JumpIfGreater => 0x8f,
        _ => 0x8d,
    }
}

/// `🦘= label` and the other conditional jumps.
pub open spec fn jump_if_code(operation: TokenModel, operand: TokenModel) -> Result<
    Seq<CodeUnit>,
    ErrorModel,
> {
    match grammar_check(seq![jump_if_kinds(), seq![TokenType::LabelReference]], seq![operation, operand]) {
        Err(k) => Err(k),
        Ok(_) => Ok(
            seq![
                CodeUnit::Byte(0x0f),
                CodeUnit::Byte(jump_if_opcode(operation.t->0)),
                CodeUnit::Displacement32(operand.value),
            ],
        ),
    }
}

/// Whether `r` is the outcome that `s` describes: the same code, or an
/// error of the same kind.
pub open spec fn code_outcome(
    r: Result<Vec<IntermediateCode>, AsmError>,
    s: Result<Seq<CodeUnit>, ErrorModel>,
) -> bool {
    match s {
        Ok(u) => r is Ok && r->Ok_0.deep_view() == u,
        Err(e) => r is Err && r->Err_0.model() == e,
    }
}

/// Whether `r` is the outcome of a check that `s` describes.
pub open spec fn check_outcome(r: Result<(), AsmError>, s: Result<(), ErrorModel>) -> bool {
    match s {
        Ok(_) => r is Ok,
        Err(k) => r is Err && r->Err_0.model() == k,
    }
}

/// Appends a 32-bit immediate to `code`.
fn push_imm32(code: &mut Vec<IntermediateCode>, x: u32)
    ensures
        final(code).deep_view() == old(code).deep_view() + imm32(x),
{
    let ghost start = code.deep_view();
    code.push(IntermediateCode::Byte((x & 0xff) as u8));
    code.push(IntermediateCode::Byte(((x >> 8) & 0xff) as u8));
    code.push(IntermediateCode::Byte(((x >> 16) & 0xff) as u8));
    code.push(IntermediateCode::Byte(((x >> 24) & 0xff) as u8));
    proof {
        assert((x & 0xff) == x % 0x100) by (bit_vector);
        assert(((x >> 8) & 0xff) == x / 0x100 % 0x100) by (bit_vector);
        assert(((x >> 16) & 0xff) == x / 0x1_0000 % 0x100) by (bit_vector);
        assert(((x >> 24) & 0xff) == x / 0x100_0000 % 0x100) by (bit_vector);
        assert(code.deep_view() =~= start + imm32(x));
    }
}

/// One instruction family: a fixed shape of tokens and its encoding.
pub trait Instruction {
    /// The outcome of checking the instruction's tokens against its shape.
    spec fn spec_validate(&self) -> Result<(), ErrorModel>;

    /// The code that the instruction encodes to, or the error it fails with.
    spec fn spec_compile(&self) -> Result<Seq<CodeUnit>, ErrorModel>;

    /// Checks the instruction's tokens against its shape.
    fn validate(&self) -> (r: Result<(), AsmError>)
        ensures
            check_outcome(r, self.spec_validate()),
    ;

    /// Encodes the instruction.
    fn compile(&self) -> (r: Result<Vec<IntermediateCode>, AsmError>)
        ensures
            code_outcome(r, self.spec_compile()),
    ;

    /// The text of `tokens`, each preceded by a space.
    fn format_tokens(&self, tokens: &Vec<&Token>) -> (r: String)
        ensures
            r@ == joined(tokens.deep_view()),
    {
        let mut s = String::new();
        let mut i: usize = 0;
        while i < tokens.len()
            invariant
                0 <= i <= tokens.len(),
                s@ == joined(tokens.deep_view().subrange(0, i as int)),
            decreases tokens.len() - i,
        {
            s.append(" ");
            s.append(tokens[i].value.as_str());
            proof {
                reveal_strlit(" ");
                let part = tokens.deep_view().subrange(0, i + 1);
                assert(part.drop_last() =~= tokens.deep_view().subrange(0, i as int));
            }
            i = i + 1;
        }
        assert(tokens.deep_view().subrange(0, i as int) =~= tokens.deep_view());
        s
    }

    /// The 3-bit code of the register that `token` names.
    fn get_reg_value(&self, token: &Token) -> (r: Result<u8, AsmError>)
        ensures
            match reg_code(token.value@) {
                Some(c) => r is Ok && r->Ok_0 == c,
                None => r is Err && r->Err_0.model() == fault(
                    ErrorKind::InvalidRegister,
                    token.value@,
                ),
            },
    {
        let name = token.value.as_str();
        if name.unicode_len() == 1 {
            let c = name.get_char(0);
            assert(name@ =~= seq![c]);
            if c == '⚪' {
                return Ok(0);
            } else if c == '🔵' {
                return Ok(1);
            } else if c == '⚫' {
                return Ok(2);
            } else if c == '🔴' {
                return Ok(3);
            } else if c == '◀' {
                return Ok(4);
            } else if c == '⬇' {
                return Ok(5);
            }
        }
        Err(AsmError::new(ErrorKind::InvalidRegister, token.value.clone()))
    }

    /// Checks `given` against `expected`, one set of accepted kinds per
    /// position.
    fn validate_tokens(&self, expected: Vec<Vec<TokenType>>, given: Vec<&Token>) -> (r: Result<
        (),
        AsmError,
    >)
        ensures
            check_outcome(r, grammar_check(expected.deep_view(), given.deep_view())),
    {
        if expected.len() != given.len() {
            return Err(AsmError::new(ErrorKind::Arity, self.format_tokens(&given)));
        }
        let ghost e = expected.deep_view();
        let ghost g = given.deep_view();
        proof {
            lemma_first_mismatch(e, g, 0);
        }
        let mut i: usize = 0;
        while i < given.len()
            invariant
                0 <= i <= given.len(),
                expected.len() == given.len(),
                e == expected.deep_view(),
                g == given.deep_view(),
                first_mismatch(e, g, 0) == first_mismatch(e, g, i as nat),
            decreases given.len() - i,
        {
            let accepted = match given[i].t {
                Some(k) => {
                    let set = &expected[i];
                    let mut found = false;
                    let mut j: usize = 0;
                    while j < set.len()
                        invariant
                            0 <= j <= set.len(),
                            i < given.len(),
                            expected.len() == given.len(),
                            set.deep_view() == e[i as int],
                            found <==> set.deep_view().subrange(0, j as int).contains(k),
                        decreases set.len() - j,
                    {
                        if set[j] == k {
                            found = true;
                        }
                        proof {
                            let a = set.deep_view().subrange(0, j as int);
                            let b = set.deep_view().subrange(0, j + 1);
                            assert(b =~= a.push(set[j as int]));
                            if a.contains(k) {
                                let w = choose|w: int| 0 <= w < a.len() && a[w] == k;
                                assert(b[w] == k);
                            }
                            if set[j as int] == k {
                                assert(b[j as int] == k);
                            }
                            if b.contains(k) {
                                let w = choose|w: int| 0 <= w < b.len() && b[w] == k;
                                if w < j {
                                    assert(a[w] == k);
                                }
                            }
                        }
                        j = j + 1;
                    }
                    assert(set.deep_view().subrange(0, j as int) =~= set.deep_view());
                    found
                },
                None => false,
            };
            if !accepted {
                let accepted_kinds = copy_kinds(&expected[i]);
                assert(accepted_kinds@ =~= e[i as int]);
                return Err(
                    AsmError {
                        kind: ErrorKind::UnexpectedToken { index: i },
                        detail: self.format_tokens(&given),
                        expected: accepted_kinds,
                    },
                );
            }
            i = i + 1;
        }
        Ok(())
    }

    /// A ModRM byte. Each field must fit its width: two bits for `mod_`,
    /// three for the others.
    fn calc_modrm(&self, mod_: u8, reg_opcode: u8, rm: u8) -> (r: u8)
        requires
            mod_ < 4,
            reg_opcode < 8,
            rm < 8,
        ensures
            r == modrm(mod_, reg_opcode, rm),
    {
        assert((mod_ << 6u8 | reg_opcode << 3u8 | rm) == mod_ * 64 + reg_opcode * 8 + rm)
            by (bit_vector)
            requires
                mod_ < 4,
                reg_opcode < 8,
                rm < 8,
        ;
        mod_ << 6 | reg_opcode << 3 | rm
    }
}


fn parse_error(t: &Token) -> (r: AsmError)
    ensures
        r.model() == fault(ErrorKind::Parse, t.value@),
{
    AsmError::new(ErrorKind::Parse, t.value.clone())
}

/// The byte of a signed 8-bit value, in two's complement.
fn disp8_byte(v: i8) -> (r: u8)
    ensures
        r == (if v < 0 {
            v + 256
        } else {
            v as int
        }) as u8,
{
    if v < 0 {
        (v as i16 + 256) as u8
    } else {
        v as u8
    }
}

/// A copy of a set of kinds.
fn copy_kinds(kinds: &Vec<TokenType>) -> (r: Vec<TokenType>)
    ensures
        r@ == kinds@,
{
    let mut r: Vec<TokenType> = Vec::new();
    let mut i: usize = 0;
    while i < kinds.len()
        invariant
            0 <= i <= kinds.len(),
            r@ == kinds@.subrange(0, i as int),
        decreases kinds.len() - i,
    {
        r.push(kinds[i]);
        assert(kinds@.subrange(0, i + 1) =~= kinds@.subrange(0, i as int).push(kinds@[i as int]));
        i = i + 1;
    }
    assert(kinds@.subrange(0, i as int) =~= kinds@);
    r
}

/// `register ⬅ operand`.
pub struct InstructionMove<'a> {
    pub register: &'a Token,
    pub operation: &'a Token,
    pub operand: &'a Token,
}

impl<'a> Instruction for InstructionMove<'a> {
    open spec fn spec_validate(&self) -> Result<(), ErrorModel> {
        grammar_check(move_shape(), seq![self.register@, self.operation@, self.operand@])
    }

    open spec fn spec_compile(&self) -> Result<Seq<CodeUnit>, ErrorModel> {
        move_code(self.register@, self.operation@, self.operand@)
    }

    fn validate(&self) -> (r: Result<(), AsmError>) {
        let expected = vec![
            vec![TokenType::Register],
            vec![TokenType::Move],
            vec![TokenType::Value, TokenType::Register, TokenType::LabelReference],
        ];
        let given = vec![self.register, self.operation, self.operand];
        assert(expected.deep_view() =~~= move_shape());
        assert(given.deep_view() =~= seq![self.register@, self.operation@, self.operand@]);
        self.validate_tokens(expected, given)
    }

    fn compile(&self) -> (r: Result<Vec<IntermediateCode>, AsmError>) {
        if let Err(e) = self.validate() {
            return Err(e);
        }
        let dst = match self.get_reg_value(self.register) {
            Ok(c) => c,
            Err(e) => return Err(e),
        };
        match self.operand.t {
            Some(TokenType::Value) => {
                let value = match parse_u32(self.operand.value.as_str()) {
                    Some(v) => v,
                    None => return Err(parse_error(self.operand)),
                };
                let mut code = vec![IntermediateCode::Byte(0xb8 + dst)];
                push_imm32(&mut code, value);
                assert(code.deep_view() =~= seq![CodeUnit::Byte((0xb8 + dst) as u8)] + imm32(value));
                Ok(code)
            },
            Some(TokenType::LabelReference) => {
                let code = vec![
                    IntermediateCode::Byte(0xb8 + dst),
                    IntermediateCode::Displacement32(self.operand.value.clone()),
                ];
                assert(code.deep_view() =~= seq![
                    CodeUnit::Byte((0xb8 + dst) as u8),
                    CodeUnit::Displacement32(self.operand.value@),
                ]);
                Ok(code)
            },
            _ => {
                let src = match self.get_reg_value(self.operand) {
                    Ok(c) => c,
                    Err(e) => return Err(e),
                };
                let code = vec![
                    IntermediateCode::Byte(0x89),
                    IntermediateCode::Byte(self.calc_modrm(0b11, src, dst)),
                ];
                assert(code.deep_view() =~= seq![
                    CodeUnit::Byte(0x89),
                    CodeUnit::Byte(modrm(3, src, dst)),
                ]);
                Ok(code)
            },
        }
    }
}

/// `register ⬅ offset base`.
pub struct InstructionMoveModRM<'a> {
    pub register: &'a Token,
    pub operation: &'a Token,
    pub offset: &'a Token,
    pub operand: &'a Token,
}

impl<'a> Instruction for InstructionMoveModRM<'a> {
    open spec fn spec_validate(&self) -> Result<(), ErrorModel> {
        grammar_check(
            move_modrm_shape(),
            seq![self.register@, self.operation@, self.offset@, self.operand@],
        )
    }

    open spec fn spec_compile(&self) -> Result<Seq<CodeUnit>, ErrorModel> {
        move_modrm_code(self.register@, self.operation@, self.offset@, self.operand@)
    }

    fn validate(&self) -> (r: Result<(), AsmError>) {
        let expected = vec![
            vec![TokenType::Register],
            vec![TokenType::Move],
            vec![TokenType::Value],
            vec![TokenType::Register],
        ];
        let given = vec![self.register, self.operation, self.offset, self.operand];
        assert(expected.deep_view() =~~= move_modrm_shape());
        assert(given.deep_view() =~= seq![
            self.register@,
            self.operation@,
            self.offset@,
            self.operand@,
        ]);
        self.validate_tokens(expected, given)
    }

    fn compile(&self) -> (r: Result<Vec<IntermediateCode>, AsmError>) {
        if let Err(e) = self.validate() {
            return Err(e);
        }
        let dst = match self.get_reg_value(self.register) {
            Ok(c) => c,
            Err(e) => return Err(e),
        };
        let base = match self.get_reg_value(self.operand) {
            Ok(c) => c,
            Err(e) => return Err(e),
        };
        let offset = match parse_i8(self.offset.value.as_str()) {
            Some(v) => v,
            None => return Err(parse_error(self.offset)),
        };
        let code = vec![
            IntermediateCode::Byte(0x8b),
            IntermediateCode::Byte(self.calc_modrm(0b01, dst, base)),
            IntermediateCode::Byte(disp8_byte(offset)),
        ];
        assert(code.deep_view() =~= seq![
            CodeUnit::Byte(0x8b),
            CodeUnit::Byte(modrm(1, dst, base)),
            CodeUnit::Byte(disp8_of(self.offset@)->Ok_0),
        ]);
        Ok(code)
    }
}

/// `register ⬆ operand` and `register ➖ operand`.
pub struct InstructionAddSubtract<'a> {
    pub register: &'a Token,
    pub operation: &'a Token,
    pub operand: &'a Token,
}

impl<'a> Instruction for InstructionAddSubtract<'a> {
    open spec fn spec_validate(&self) -> Result<(), ErrorModel> {
        grammar_check(add_subtract_shape(), seq![self.register@, self.operation@, self.operand@])
    }

    open spec fn spec_compile(&self) -> Result<Seq<CodeUnit>, ErrorModel> {
        add_subtract_code(self.register@, self.operation@, self.operand@)
    }

    fn validate(&self) -> (r: Result<(), AsmError>) {
        let expected = vec![
            vec![TokenType::Register],
            vec![TokenType::Add, TokenType::Subtract],
            vec![TokenType::Value, TokenType::Register],
        ];
        let given = vec![self.register, self.operation, self.operand];
        assert(expected.deep_view() =~~= add_subtract_shape());
        assert(given.deep_view() =~= seq![self.register@, self.operation@, self.operand@]);
        self.validate_tokens(expected, given)
    }

    fn compile(&self) -> (r: Result<Vec<IntermediateCode>, AsmError>) {
        if let Err(e) = self.validate() {
            return Err(e);
        }
        let dst = match self.get_reg_value(self.register) {
            Ok(c) => c,
            Err(e) => return Err(e),
        };
        let is_add = match self.operation.t {
            Some(TokenType::Add) => true,
            _ => false,
        };
        match self.operand.t {
            Some(TokenType::Value) => {
                let value = match parse_u32(self.operand.value.as_str()) {
                    Some(v) => v,
                    None => return Err(parse_error(self.operand)),
                };
                let extension: u8 = if is_add { 0 } else { 5 };
                let mut code = vec![
                    IntermediateCode::Byte(0x81),
                    IntermediateCode::Byte(self.calc_modrm(0b11, extension, dst)),
                ];
                push_imm32(&mut code, value);
                assert(code.deep_view() =~= seq![
                    CodeUnit::Byte(0x81),
                    CodeUnit::Byte(modrm(3, extension, dst)),
                ] + imm32(value));
                Ok(code)
            },
            _ => {
                let src = match self.get_reg_value(self.operand) {
                    Ok(c) => c,
                    Err(e) => return Err(e),
                };
                let opcode: u8 = if is_add { 0x01 } else { 0x29 };
                let code = vec![
                    IntermediateCode::Byte(opcode),
                    IntermediateCode::Byte(self.calc_modrm(0b11, src, dst)),
                ];
                assert(code.deep_view() =~= seq![
                    CodeUnit::Byte(opcode),
                    CodeUnit::Byte(modrm(3, src, dst)),
                ]);
                Ok(code)
            },
        }
    }
}

/// `register ✖ operand`.
pub struct InstructionMultiply<'a> {
    pub register: &'a Token,
    pub operation: &'a Token,
    pub operand: &'a Token,
}

impl<'a> Instruction for InstructionMultiply<'a> {
    open spec fn spec_validate(&self) -> Result<(), ErrorModel> {
        grammar_check(multiply_shape(), seq![self.register@, self.operation@, self.operand@])
    }

    open spec fn spec_compile(&self) -> Result<Seq<CodeUnit>, ErrorModel> {
        multiply_code(self.register@, self.operation@, self.operand@)
    }

    fn validate(&self) -> (r: Result<(), AsmError>) {
        let expected = vec![
            vec![TokenType::Register],
            vec![TokenType::Multiply],
            vec![TokenType::Value, TokenType::Register],
        ];
        let given = vec![self.register, self.operation, self.operand];
        assert(expected.deep_view() =~~= multiply_shape());
        assert(given.deep_view() =~= seq![self.register@, self.operation@, self.operand@]);
        self.validate_tokens(expected, given)
    }

    fn compile(&self) -> (r: Result<Vec<IntermediateCode>, AsmError>) {
        if let Err(e) = self.validate() {
            return Err(e);
        }
        let dst = match self.get_reg_value(self.register) {
            Ok(c) => c,
            Err(e) => return Err(e),
        };
        match self.operand.t {
            Some(TokenType::Value) => {
                let value = match parse_u32(self.operand.value.as_str()) {
                    Some(v) => v,
                    None => return Err(parse_error(self.operand)),
                };
                let mut code = vec![
                    IntermediateCode::Byte(0x69),
                    IntermediateCode::Byte(self.calc_modrm(0b11, dst, dst)),
                ];
                push_imm32(&mut code, value);
                assert(code.deep_view() =~= seq![
                    CodeUnit::Byte(0x69),
                    CodeUnit::Byte(modrm(3, dst, dst)),
                ] + imm32(value));
                Ok(code)
            },
            _ => {
                let src = match self.get_reg_value(self.operand) {
                    Ok(c) => c,
                    Err(e) => return Err(e),
                };
                let code = vec![
                    IntermediateCode::Byte(0x0f),
                    IntermediateCode::Byte(0xaf),
                    IntermediateCode::Byte(self.calc_modrm(0b11, dst, src)),
                ];
                assert(code.deep_view() =~= seq![
                    CodeUnit::Byte(0x0f),
                    CodeUnit::Byte(0xaf),
                    CodeUnit::Byte(modrm(3, dst, src)),
                ]);
                Ok(code)
            },
        }
    }
}

/// `🦘 label`.
pub struct InstructionJump<'a> {
    pub operation: &'a Token,
    pub operand: &'a Token,
}

impl<'a> Instruction for InstructionJump<'a> {
    open spec fn spec_validate(&self) -> Result<(), ErrorModel> {
        grammar_check(branch_shape(TokenType::Jump), seq![self.operation@, self.operand@])
    }

    open spec fn spec_compile(&self) -> Result<Seq<CodeUnit>, ErrorModel> {
        jump_code(self.operation@, self.operand@)
    }

    fn validate(&self) -> (r: Result<(), AsmError>) {
        let expected = vec![vec![TokenType::Jump], vec![TokenType::LabelReference]];
        let given = vec![self.operation, self.operand];
        assert(expected.deep_view() =~~= branch_shape(TokenType::Jump));
        assert(given.deep_view() =~= seq![self.operation@, self.operand@]);
        self.validate_tokens(expected, given)
    }

    fn compile(&self) -> (r: Result<Vec<IntermediateCode>, AsmError>) {
        if let Err(e) = self.validate() {
            return Err(e);
        }
        let code = vec![
            IntermediateCode::Byte(0xe9),
            IntermediateCode::Displacement32(self.operand.value.clone()),
        ];
        assert(code.deep_view() =~= seq![
            CodeUnit::Byte(0xe9),
            CodeUnit::Displacement32(self.operand.value@),
        ]);
        Ok(code)
    }
}

/// `📞 label`.
pub struct InstructionCall<'a> {
    pub operation: &'a Token,
    pub operand: &'a Token,
}

impl<'a> Instruction for InstructionCall<'a> {
    open spec fn spec_validate(&self) -> Result<(), ErrorModel> {
        grammar_check(branch_shape(TokenType::Call), seq![self.operation@, self.operand@])
    }

    open spec fn spec_compile(&self) -> Result<Seq<CodeUnit>, ErrorModel> {
        call_code(self.operation@, self.operand@)
    }

    fn validate(&self) -> (r: Result<(), AsmError>) {
        let expected = vec![vec![TokenType::Call], vec![TokenType::LabelReference]];
        let given = vec![self.operation, self.operand];
        assert(expected.deep_view() =~~= branch_shape(TokenType::Call));
        assert(given.deep_view() =~= seq![self.operation@, self.operand@]);
        self.validate_tokens(expected, given)
    }

    fn compile(&self) -> (r: Result<Vec<IntermediateCode>, AsmError>) {
        if let Err(e) = self.validate() {
            return Err(e);
        }
        let code = vec![
            IntermediateCode::Byte(0xe8),
            IntermediateCode::Displacement32(self.operand.value.clone()),
        ];
        assert(code.deep_view() =~= seq![
            CodeUnit::Byte(0xe8),
            CodeUnit::Displacement32(self.operand.value@),
        ]);
        Ok(code)
    }
}

/// `↩`.
pub struct InstructionReturn<'a> {
    pub operation: &'a Token,
}

impl<'a> Instruction for InstructionReturn<'a> {
    open spec fn spec_validate(&self) -> Result<(), ErrorModel> {
        grammar_check(seq![seq![TokenType::Return]], seq![self.operation@])
    }

    open spec fn spec_compile(&self) -> Result<Seq<CodeUnit>, ErrorModel> {
        return_code(self.operation@)
    }

    fn validate(&self) -> (r: Result<(), AsmError>) {
        let expected = vec![vec![TokenType::Return]];
        let given = vec![self.operation];
        assert(expected.deep_view() =~~= seq![seq![TokenType::Return]]);
        assert(given.deep_view() =~= seq![self.operation@]);
        self.validate_tokens(expected, given)
    }

    fn compile(&self) -> (r: Result<Vec<IntermediateCode>, AsmError>) {
        if let Err(e) = self.validate() {
            return Err(e);
        }
        let code = vec![IntermediateCode::Byte(0xc3)];
        assert(code.deep_view() =~= seq![CodeUnit::Byte(0xc3)]);
        Ok(code)
    }
}

/// `❗ value`.
pub struct InstructionInterrupt<'a> {
    pub operation: &'a Token,
    pub operand: &'a Token,
}

impl<'a> Instruction for InstructionInterrupt<'a> {
    open spec fn spec_validate(&self) -> Result<(), ErrorModel> {
        grammar_check(
            seq![seq![TokenType::Interrupt], seq![TokenType::Value]],
            seq![self.operation@, self.operand@],
        )
    }

    open spec fn spec_compile(&self) -> Result<Seq<CodeUnit>, ErrorModel> {
        interrupt_code(self.operation@, self.operand@)
    }

    fn validate(&self) -> (r: Result<(), AsmError>) {
        let expected = vec![vec![TokenType::Interrupt], vec![TokenType::Value]];
        let given = vec![self.operation, self.operand];
        assert(expected.deep_view() =~~= seq![seq![TokenType::Interrupt], seq![TokenType::Value]]);
        assert(given.deep_view() =~= seq![self.operation@, self.operand@]);
        self.validate_tokens(expected, given)
    }

    fn compile(&self) -> (r: Result<Vec<IntermediateCode>, AsmError>) {
        if let Err(e) = self.validate() {
            return Err(e);
        }
        let vector = match parse_u8(self.operand.value.as_str()) {
            Some(v) => v,
            None => return Err(parse_error(self.operand)),
        };
        let code = vec![IntermediateCode::Byte(0xcd), IntermediateCode::Byte(vector)];
        assert(code.deep_view() =~= seq![CodeUnit::Byte(0xcd), CodeUnit::Byte(vector)]);
        Ok(code)
    }
}

/// `📥 operand`.
pub struct InstructionPush<'a> {
    pub operation: &'a Token,
    pub operand: &'a Token,
}

impl<'a> Instruction for InstructionPush<'a> {
    open spec fn spec_validate(&self) -> Result<(), ErrorModel> {
        grammar_check(push_shape(), seq![self.operation@, self.operand@])
    }

    open spec fn spec_compile(&self) -> Result<Seq<CodeUnit>, ErrorModel> {
        push_code(self.operation@, self.operand@)
    }

    fn validate(&self) -> (r: Result<(), AsmError>) {
        let expected = vec![vec![TokenType::Push], vec![TokenType::Value, TokenType::Register]];
        let given = vec![self.operation, self.operand];
        assert(expected.deep_view() =~~= push_shape());
        assert(given.deep_view() =~= seq![self.operation@, self.operand@]);
        self.validate_tokens(expected, given)
    }

    fn compile(&self) -> (r: Result<Vec<IntermediateCode>, AsmError>) {
        if let Err(e) = self.validate() {
            return Err(e);
        }
        match self.operand.t {
            Some(TokenType::Value) => {
                let value = match parse_u32(self.operand.value.as_str()) {
                    Some(v) => v,
                    None => return Err(parse_error(self.operand)),
                };
                let mut code = vec![IntermediateCode::Byte(0x68)];
                push_imm32(&mut code, value);
                assert(code.deep_view() =~= seq![CodeUnit::Byte(0x68)] + imm32(value));
                Ok(code)
            },
            _ => {
                let reg = match self.get_reg_value(self.operand) {
                    Ok(c) => c,
                    Err(e) => return Err(e),
                };
                let code = vec![IntermediateCode::Byte(0x50 + reg)];
                assert(code.deep_view() =~= seq![CodeUnit::Byte((0x50 + reg) as u8)]);
                Ok(code)
            },
        }
    }
}

/// `📥 offset base`.
pub struct InstructionPushModRM<'a> {
    pub operation: &'a Token,
    pub offset: &'a Token,
    pub register: &'a Token,
}

impl<'a> Instruction for InstructionPushModRM<'a> {
    open spec fn spec_validate(&self) -> Result<(), ErrorModel> {
        grammar_check(push_modrm_shape(), seq![self.operation@, self.offset@, self.register@])
    }

    open spec fn spec_compile(&self) -> Result<Seq<CodeUnit>, ErrorModel> {
        push_modrm_code(self.operation@, self.offset@, self.register@)
    }

    fn validate(&self) -> (r: Result<(), AsmError>) {
        let expected = vec![vec![TokenType::Push], vec![TokenType::Value], vec![TokenType::Register]];
        let given = vec![self.operation, self.offset, self.register];
        assert(expected.deep_view() =~~= push_modrm_shape());
        assert(given.deep_view() =~= seq![self.operation@, self.offset@, self.register@]);
        self.validate_tokens(expected, given)
    }

    fn compile(&self) -> (r: Result<Vec<IntermediateCode>, AsmError>) {
        if let Err(e) = self.validate() {
            return Err(e);
        }
        let base = match self.get_reg_value(self.register) {
            Ok(c) => c,
            Err(e) => return Err(e),
        };
        let offset = match parse_i8(self.offset.value.as_str()) {
            Some(v) => v,
            None => return Err(parse_error(self.offset)),
        };
        let code = vec![
            IntermediateCode::Byte(0xff),
            IntermediateCode::Byte(self.calc_modrm(0b01, 6, base)),
            IntermediateCode::Byte(disp8_byte(offset)),
        ];
        assert(code.deep_view() =~= seq![
            CodeUnit::Byte(0xff),
            CodeUnit::Byte(modrm(1, 6, base)),
            CodeUnit::Byte(disp8_of(self.offset@)->Ok_0),
        ]);
        Ok(code)
    }
}

/// `📤 register`.
pub struct InstructionPop<'a> {
    pub operation: &'a Token,
    pub operand: &'a Token,
}

impl<'a> Instruction for InstructionPop<'a> {
    open spec fn spec_validate(&self) -> Result<(), ErrorModel> {
        grammar_check(
            seq![seq![TokenType::Pop], seq![TokenType::Register]],
            seq![self.operation@, self.operand@],
        )
    }

    open spec fn spec_compile(&self) -> Result<Seq<CodeUnit>, ErrorModel> {
        pop_code(self.operation@, self.operand@)
    }

    fn validate(&self) -> (r: Result<(), AsmError>) {
        let expected = vec![vec![TokenType::Pop], vec![TokenType::Register]];
        let given = vec![self.operation, self.operand];
        assert(expected.deep_view() =~~= seq![seq![TokenType::Pop], seq![TokenType::Register]]);
        assert(given.deep_view() =~= seq![self.operation@, self.operand@]);
        self.validate_tokens(expected, given)
    }

    fn compile(&self) -> (r: Result<Vec<IntermediateCode>, AsmError>) {
        if let Err(e) = self.validate() {
            return Err(e);
        }
        let reg = match self.get_reg_value(self.operand) {
            Ok(c) => c,
            Err(e) => return Err(e),
        };
        let code = vec![IntermediateCode::Byte(0x58 + reg)];
        assert(code.deep_view() =~= seq![CodeUnit::Byte((0x58 + reg) as u8)]);
        Ok(code)
    }
}

/// `⚖ left right`.
pub struct InstructionCompare<'a> {
    pub operation: &'a Token,
    pub left_operand: &'a Token,
    pub right_operand: &'a Token,
}

impl<'a> Instruction for InstructionCompare<'a> {
    open spec fn spec_validate(&self) -> Result<(), ErrorModel> {
        grammar_check(
            compare_shape(),
            seq![self.operation@, self.left_operand@, self.right_operand@],
        )
    }

    open spec fn spec_compile(&self) -> Result<Seq<CodeUnit>, ErrorModel> {
        compare_code(self.operation@, self.left_operand@, self.right_operand@)
    }

    fn validate(&self) -> (r: Result<(), AsmError>) {
        let expected = vec![
            vec![TokenType::Compare],
            vec![TokenType::Register],
            vec![TokenType::Register, TokenType::Value],
        ];
        let given = vec![self.operation, self.left_operand, self.right_operand];
        assert(expected.deep_view() =~~= compare_shape());
        assert(given.deep_view() =~= seq![
            self.operation@,
            self.left_operand@,
            self.right_operand@,
        ]);
        self.validate_tokens(expected, given)
    }

    fn compile(&self) -> (r: Result<Vec<IntermediateCode>, AsmError>) {
        if let Err(e) = self.validate() {
            return Err(e);
        }
        let left = match self.get_reg_value(self.left_operand) {
            Ok(c) => c,
            Err(e) => return Err(e),
        };
        match self.right_operand.t {
            Some(TokenType::Register) => {
                let right = match self.get_reg_value(self.right_operand) {
                    Ok(c) => c,
                    Err(e) => return Err(e),
                };
                let code = vec![
                    IntermediateCode::Byte(0x39),
                    IntermediateCode::Byte(self.calc_modrm(0b11, right, left)),
                ];
                assert(code.deep_view() =~= seq![
                    CodeUnit::Byte(0x39),
                    CodeUnit::Byte(modrm(3, right, left)),
                ]);
                Ok(code)
            },
            _ => {
                let value = match parse_i8(self.right_operand.value.as_str()) {
                    Some(v) => v,
                    None => return Err(parse_error(self.right_operand)),
                };
                let code = vec![
                    IntermediateCode::Byte(0x83),
                    IntermediateCode::Byte(self.calc_modrm(0b11, 7, left)),
                    IntermediateCode::Byte(disp8_byte(value)),
                ];
                assert(code.deep_view() =~= seq![
                    CodeUnit::Byte(0x83),
                    CodeUnit::Byte(modrm(3, 7, left)),
                    CodeUnit::Byte(disp8_of(self.right_operand@)->Ok_0),
                ]);
                Ok(code)
            },
        }
    }
}

/// `🦘= label` and the other conditional jumps.
pub struct InstructionJumpIf<'a> {
    pub operation: &'a Token,
    pub operand: &'a Token,
}

impl<'a> Instruction for InstructionJumpIf<'a> {
    open spec fn spec_validate(&self) -> Result<(), ErrorModel> {
        grammar_check(
            seq![jump_if_kinds(), seq![TokenType::LabelReference]],
            seq![self.operation@, self.operand@],
        )
    }

    open spec fn spec_compile(&self) -> Result<Seq<CodeUnit>, ErrorModel> {
        jump_if_code(self.operation@, self.operand@)
    }

    fn validate(&self) -> (r: Result<(), AsmError>) {
        let expected = vec![
            vec![
                TokenType::JumpIfEqual,
                TokenType::JumpIfNotEqual,
                TokenType::JumpIfLess,
                TokenType::JumpIfLessEqual,
                TokenType::JumpIfGreater,
                TokenType::JumpIfGreaterEqual,
            ],
            vec![TokenType::LabelReference],
        ];
        let given = vec![self.operation, self.operand];
        assert(expected.deep_view() =~~= seq![jump_if_kinds(), seq![TokenType::LabelReference]]);
        assert(given.deep_view() =~= seq![self.operation@, self.operand@]);
        self.validate_tokens(expected, given)
    }

    fn compile(&self) -> (r: Result<Vec<IntermediateCode>, AsmError>) {
        if let Err(e) = self.validate() {
            return Err(e);
        }
        let condition: u8 = match self.operation.t {
            Some(TokenType::JumpIfEqual) => 0x84,
            Some(TokenType::JumpIfNotEqual) => 0x85,
            Some(TokenType::JumpIfLess) => 0x8c,
            Some(TokenType::JumpIfLessEqual) => 0x8e,
            Some(TokenType::JumpIfGreater) => 0x8f,
            _ => 0x8d,
        };
        let code = vec![
            IntermediateCode::Byte(0x0f),
            IntermediateCode::Byte(condition),
            IntermediateCode::Displacement32(self.operand.value.clone()),
        ];
        assert(code.deep_view() =~= seq![
            CodeUnit::Byte(0x0f),
            CodeUnit::Byte(jump_if_opcode(self.operation@.t->0)),
            CodeUnit::Displacement32(self.operand.value@),
        ]);
        Ok(code)
    }
}

// ---------------------------------------------------------------------------
// Statements
// ---------------------------------------------------------------------------

/// Whether `k` names an instruction.
pub open spec fn is_instruction_kind(k: TokenType) -> bool {
    match k {
        TokenType::Move | TokenType::Add | TokenType::Subtract | TokenType::Multiply
        | TokenType::JumpIfEqual | TokenType::JumpIfNotEqual | TokenType::JumpIfLess
        | TokenType::JumpIfLessEqual | TokenType::JumpIfGreater | TokenType::JumpIfGreaterEqual
        | TokenType::Jump | TokenType::Call | TokenType::Push | TokenType::Pop | TokenType::Return
        | TokenType::Compare | TokenType::Interrupt => true,
        _ => false,
    }
}

/// Whether `t` names an instruction.
pub open spec fn names_instruction(t: TokenModel) -> bool {
    t.t is Some && is_instruction_kind(t.t->0)
}

/// The position of the first token from `i` on that names an instruction, or
/// `tokens.len()` if there is none.
pub open spec fn first_instruction(tokens: Seq<TokenModel>, i: nat) -> nat
    decreases tokens.len() - i,
{
    if i >= tokens.len() {
        tokens.len()
    } else if names_instruction(tokens[i as int]) {
        i
    } else {
        first_instruction(tokens, i + 1)
    }
}

/// The number of tokens of a statement whose instruction is `k`, for a
/// statement of `n` tokens (`📥` and `⬅` have a short and a long form).
pub open spec fn statement_arity(k: TokenType, n: nat) -> nat {
    match k {
        TokenType::Return => 1,
        TokenType::Add | TokenType::Subtract | TokenType::Multiply | TokenType::Compare => 3,
        TokenType::Push => if n == 2 {
            2
        } else {
            3
        },
        TokenType::Move => if n == 3 {
            3
        } else {
            4
        },
        _ => 2,
    }
}

/// The encoding of a statement whose instruction is `k` and whose tokens
/// are as many as that instruction takes.
pub open spec fn family_code(k: TokenType, t: Seq<TokenModel>) -> Result<Seq<CodeUnit>, ErrorModel> {
    match k {
        TokenType::Interrupt => interrupt_code(t[0], t[1]),
        TokenType::Add | TokenType::Subtract => add_subtract_code(t[0], t[1], t[2]),
        TokenType::Multiply => multiply_code(t[0], t[1], t[2]),
        TokenType::Jump => jump_code(t[0], t[1]),
        TokenType::Pop => pop_code(t[0], t[1]),
        TokenType::Compare => compare_code(t[0], t[1], t[2]),
        TokenType::Call => call_code(t[0], t[1]),
        TokenType::Return => return_code(t[0]),
        TokenType::Push => if t.len() == 2 {
            push_code(t[0], t[1])
        } else {
            push_modrm_code(t[0], t[1], t[2])
        },
        TokenType::Move => if t.len() == 3 {
            move_code(t[0], t[1], t[2])
        } else {
            move_modrm_code(t[0], t[1], t[2], t[3])
        },
        _ => jump_if_code(t[0], t[1]),
    }
}

/// The encoding of one statement: the first token that names an
/// instruction selects it, and the statement must have exactly as many
/// tokens as that instruction takes.
pub open spec fn encode_statement(tokens: Seq<TokenModel>) -> Result<Seq<CodeUnit>, ErrorModel> {
    let i = first_instruction(tokens, 0);
    if i >= tokens.len() {
        Err(fault(ErrorKind::ExpectedInstruction, joined(tokens)))
    } else {
        let k = tokens[i as int].t->0;
        if tokens.len() != statement_arity(k, tokens.len()) {
            Err(fault(ErrorKind::Arity, joined(tokens)))
        } else {
            family_code(k, tokens)
        }
    }
}

proof fn lemma_first_instruction(tokens: Seq<TokenModel>, i: nat)
    requires
        i <= tokens.len(),
    ensures
        i <= first_instruction(tokens, i) <= tokens.len(),
        first_instruction(tokens, i) < tokens.len() ==> names_instruction(
            tokens[first_instruction(tokens, i) as int],
        ),
    decreases tokens.len() - i,
{
    if i < tokens.len() && !names_instruction(tokens[i as int]) {
        lemma_first_instruction(tokens, i + 1);
    }
}

/// The text of a statement, each token preceded by a space.
fn statement_text(tokens: &Vec<Token>) -> (r: String)
    ensures
        r@ == joined(tokens.deep_view()),
{
    let mut s = String::new();
    let mut i: usize = 0;
    while i < tokens.len()
        invariant
            0 <= i <= tokens.len(),
            s@ == joined(tokens.deep_view().subrange(0, i as int)),
        decreases tokens.len() - i,
    {
        s.append(" ");
        s.append(tokens[i].value.as_str());
        proof {
            reveal_strlit(" ");
            let part = tokens.deep_view().subrange(0, i + 1);
            assert(part.drop_last() =~= tokens.deep_view().subrange(0, i as int));
        }
        i = i + 1;
    }
    assert(tokens.deep_view().subrange(0, i as int) =~= tokens.deep_view());
    s
}

/// Encodes one statement into intermediate code.
pub fn compile(tokens: Vec<Token>) -> (r: Result<Vec<IntermediateCode>, AsmError>)
    ensures
        code_outcome(r, encode_statement(tokens.deep_view())),
{
    let ghost toks = tokens.deep_view();
    proof {
        lemma_first_instruction(toks, 0);
    }
    let n = tokens.len();
    let mut i: usize = 0;
    let mut kind: Option<TokenType> = None;
    while i < n
        invariant_except_break
            kind is None,
        invariant
            0 <= i <= n,
            n == tokens.len(),
            toks == tokens.deep_view(),
            first_instruction(toks, 0) == first_instruction(toks, i as nat),
        ensures
            kind is None ==> i == n,
            kind is Some ==> i < n && kind == toks[i as int].t && names_instruction(toks[i as int])
                && first_instruction(toks, 0) == i,
        decreases n - i,
    {
        let is_instruction = match tokens[i].t {
            Some(TokenType::Move) | Some(TokenType::Add) | Some(TokenType::Subtract) | Some(
                TokenType::Multiply,
            ) | Some(TokenType::JumpIfEqual) | Some(TokenType::JumpIfNotEqual) | Some(
                TokenType::JumpIfLess,
            ) | Some(TokenType::JumpIfLessEqual) | Some(TokenType::JumpIfGreater) | Some(
                TokenType::JumpIfGreaterEqual,
            ) | Some(TokenType::Jump) | Some(TokenType::Call) | Some(TokenType::Push) | Some(
                TokenType::Pop,
            ) | Some(TokenType::Return) | Some(TokenType::Compare) | Some(
                TokenType::Interrupt,
            ) => true,
            _ => false,
        };
        assert(is_instruction == names_instruction(toks[i as int]));
        if is_instruction {
            kind = tokens[i].t;
            break;
        }
        i = i + 1;
    }
    let k = match kind {
        Some(k) => k,
        None => return Err(AsmError::new(ErrorKind::ExpectedInstruction, statement_text(&tokens))),
    };
    assert(i == first_instruction(toks, 0));
    assert(k == toks[i as int].t->0);
    let arity: usize = match k {
        TokenType::Return => 1,
        TokenType::Add | TokenType::Subtract | TokenType::Multiply | TokenType::Compare => 3,
        TokenType::Push => if n == 2 {
            2
        } else {
            3
        },
        TokenType::Move => if n == 3 {
            3
        } else {
            4
        },
        _ => 2,
    };
    if n != arity {
        return Err(AsmError::new(ErrorKind::Arity, statement_text(&tokens)));
    }
    let t = &tokens;
    match k {
        TokenType::Interrupt => InstructionInterrupt { operation: &t[0], operand: &t[1] }.compile(),
        TokenType::Add | TokenType::Subtract => InstructionAddSubtract {
            register: &t[0],
            operation: &t[1],
            operand: &t[2],
        }.compile(),
        TokenType::Multiply => InstructionMultiply {
            register: &t[0],
            operation: &t[1],
            operand: &t[2],
        }.compile(),
        TokenType::Jump => InstructionJump { operation: &t[0], operand: &t[1] }.compile(),
        TokenType::Pop => InstructionPop { operation: &t[0], operand: &t[1] }.compile(),
        TokenType::Compare => InstructionCompare {
            operation: &t[0],
            left_operand: &t[1],
            right_operand: &t[2],
        }.compile(),
        TokenType::Call => InstructionCall { operation: &t[0], operand: &t[1] }.compile(),
        TokenType::Return => InstructionReturn { operation: &t[0] }.compile(),
        TokenType::Push => if n == 2 {
            InstructionPush { operation: &t[0], operand: &t[1] }.compile()
        } else {
            InstructionPushModRM { operation: &t[0], offset: &t[1], register: &t[2] }.compile()
        },
        TokenType::Move => if n == 3 {
            InstructionMove { register: &t[0], operation: &t[1], operand: &t[2] }.compile()
        } else {
            InstructionMoveModRM {
                register: &t[0],
                operation: &t[1],
                offset: &t[2],
                operand: &t[3],
            }.compile()
        },
        _ => InstructionJumpIf { operation: &t[0], operand: &t[1] }.compile(),
    }
}

} // verus!
