//! The program assembler: walks the source line by line, keeps the tables of
//! constants and labels, pads each encoded instruction so that positions in
//! the intermediate program are byte offsets, and resolves every label
//! reference in a second pass.

use vstd::prelude::*;
use vstd::string::*;

use crate::common::{
    fault, le_u32, push_u32, AsmError, CodeUnit, DataSection, ErrorKind, ErrorModel,
    IntermediateCode, SectionModel,
    Token, TokenModel, TokenType, CODE_SECTION_NAME, DATA_SECTION_VIRTUAL_START, PAGE_SIZE,
};
use crate::compiler::{compile, encode_statement, imm32, jump_code, units};
use crate::executable::{elf_fits, elf_image, image_outcome};
use crate::text::{chars_of, decimal, parse_i32, parse_signed, push_decimal};
use crate::tokenizer::{bounds_of_pieces, line_tokens, pieces, split_pieces, tokenize, Split};

verus! {

/// The state of the first pass over a program.
pub struct PassModel {
    /// The padded intermediate program: a unit's position is its byte offset.
    pub program: Seq<CodeUnit>,
    /// For each unit: if it is a displacement, the number of units from it
    /// to the end of its instruction; else zero.
    pub ends: Seq<usize>,
    /// Label declarations in order, with the position they point to.
    pub labels: Seq<(Seq<char>, usize)>,
    /// Constant declarations in order, with the token they stand for.
    pub constants: Seq<(Seq<char>, TokenModel)>,
    /// The data sections declared so far.
    pub sections: Seq<SectionModel>,
}

pub open spec fn initial_pass() -> PassModel {
    PassModel {
        program: Seq::empty(),
        ends: Seq::empty(),
        labels: Seq::empty(),
        constants: Seq::empty(),
        sections: Seq::empty(),
    }
}

/// The value declared last under `key`.
pub open spec fn lookup<V>(entries: Seq<(Seq<char>, V)>, key: Seq<char>) -> Option<V>
    decreases entries.len(),
{
    if entries.len() == 0 {
        None
    } else if entries.last().0 == key {
        Some(entries.last().1)
    } else {
        lookup(entries.drop_last(), key)
    }
}

/// The units that stand for one unit of code: a displacement is followed by
/// three units of padding, so that it takes as many units as bytes.
pub open spec fn padding_of(u: CodeUnit) -> Seq<CodeUnit> {
    match u {
        CodeUnit::Displacement32(_) => seq![u, CodeUnit::Padding, CodeUnit::Padding, CodeUnit::Padding],
        _ => seq![u],
    }
}

/// An instruction's code with each displacement padded.
pub open spec fn padded(code: Seq<CodeUnit>) -> Seq<CodeUnit>
    decreases code.len(),
{
    if code.len() == 0 {
        Seq::empty()
    } else {
        padded(code.drop_last()) + padding_of(code.last())
    }
}

/// For a padded instruction `p`: the distance from each displacement to the
/// end of `p`, and zero for the other units.
pub open spec fn end_offsets(p: Seq<CodeUnit>) -> Seq<usize> {
    Seq::new(
        p.len(),
        |j: int|
            if p[j] is Displacement32 {
                (p.len() - j) as usize
            } else {
                0usize
            },
    )
}

/// The virtual address of the data section with the given index: each one
/// takes a page.
pub open spec fn section_address(index: nat) -> int {
    DATA_SECTION_VIRTUAL_START + PAGE_SIZE * index
}

/// The four bytes of a signed 32-bit value, in two's complement.
pub open spec fn le_i32(d: int) -> Seq<u8> {
    le_u32(
        if d < 0 {
            (d + 0x1_0000_0000) as u32
        } else {
            d as u32
        },
    )
}

/// The bytes of a data section: each word a 32-bit signed number.
pub open spec fn section_bytes(words: Seq<TokenModel>) -> Result<Seq<u8>, ErrorModel>
    decreases words.len(),
{
    if words.len() == 0 {
        Ok(Seq::empty())
    } else if words[0].t != Some(TokenType::Memory) {
        Err(fault(ErrorKind::DataToken, words[0].value))
    } else {
        match parse_signed(words[0].value, i32::MIN as int, i32::MAX as nat) {
            None => Err(fault(ErrorKind::Parse, words[0].value)),
            Some(v) => match section_bytes(words.drop_first()) {
                Err(k) => Err(k),
                Ok(rest) => Ok(le_i32(v) + rest),
            },
        }
    }
}

/// Whether `t` refers to a constant that was not declared.
pub open spec fn unknown_reference(t: TokenModel, constants: Seq<(Seq<char>, TokenModel)>) -> bool {
    t.t == Some(TokenType::ConstantReference) && lookup(constants, t.value) is None
}

/// `t`, or the token that the constant it refers to stands for.
pub open spec fn substituted(t: TokenModel, constants: Seq<(Seq<char>, TokenModel)>) -> TokenModel {
    if t.t == Some(TokenType::ConstantReference) {
        lookup(constants, t.value)->0
    } else {
        t
    }
}

/// The position of the first token from `i` on that refers to an undeclared
/// constant, or `tokens.len()` if there is none.
pub open spec fn first_unknown(
    tokens: Seq<TokenModel>,
    constants: Seq<(Seq<char>, TokenModel)>,
    i: nat,
) -> nat
    decreases tokens.len() - i,
{
    if i >= tokens.len() {
        tokens.len()
    } else if unknown_reference(tokens[i as int], constants) {
        i
    } else {
        first_unknown(tokens, constants, i + 1)
    }
}

/// The tokens of a statement with every constant reference replaced; the
/// error names the first constant that was not declared.
pub open spec fn substitute(tokens: Seq<TokenModel>, constants: Seq<(Seq<char>, TokenModel)>) -> Result<
    Seq<TokenModel>,
    ErrorModel,
> {
    let j = first_unknown(tokens, constants, 0);
    if j < tokens.len() {
        Err(fault(ErrorKind::UnknownConstant, tokens[j as int].value))
    } else {
        Ok(tokens.map_values(|t: TokenModel| substituted(t, constants)))
    }
}

/// One statement of the first pass.
pub open spec fn statement_step(st: PassModel, tokens: Seq<TokenModel>) -> Result<PassModel, ErrorModel> {
    if tokens.len() == 0 {
        Ok(st)
    } else if tokens[0].t == Some(TokenType::Constant) {
        if tokens.len() != 2 {
            Err(fault(ErrorKind::Arity, tokens[0].value))
        } else {
            Ok(PassModel { constants: st.constants.push((tokens[0].value, tokens[1])), ..st })
        }
    } else if tokens[0].t == Some(TokenType::Label) {
        if tokens.len() != 1 {
            Err(fault(ErrorKind::Arity, tokens[0].value))
        } else {
            Ok(PassModel { labels: st.labels.push((tokens[0].value, st.program.len() as usize)), ..st })
        }
    } else if tokens[0].t == Some(TokenType::Section) {
        let address = section_address(st.sections.len());
        if address > u32::MAX {
            Err(fault(ErrorKind::TooLarge, tokens[0].value))
        } else {
            match section_bytes(tokens.drop_first()) {
                Err(k) => Err(k),
                Ok(bytes) => Ok(
                    PassModel {
                        constants: st.constants.push(
                            (
                                tokens[0].value,
                                TokenModel {
                                    t: Some(TokenType::Value),
                                    value: decimal(address as nat),
                                },
                            ),
                        ),
                        sections: st.sections.push(SectionModel { name: tokens[0].value, bytes }),
                        ..st
                    },
                ),
            }
        }
    } else {
        match substitute(tokens, st.constants) {
            Err(k) => Err(k),
            Ok(s) => match encode_statement(s) {
                Err(k) => Err(k),
                Ok(code) => Ok(
                    PassModel {
                        program: st.program + padded(code),
                        ends: st.ends + end_offsets(padded(code)),
                        ..st
                    },
                ),
            },
        }
    }
}

/// The first pass over the lines of a program.
pub open spec fn pass_lines(lines: Seq<Seq<char>>) -> Result<PassModel, ErrorModel>
    decreases lines.len(),
{
    if lines.len() == 0 {
        Ok(initial_pass())
    } else {
        match pass_lines(lines.drop_last()) {
            Err(k) => Err(k),
            Ok(st) => match line_tokens(lines.last()) {
                Err(k) => Err(k),
                Ok(tokens) => statement_step(st, tokens),
            },
        }
    }
}

/// The bytes of the first `n` units of a program: a byte stands for itself,
/// padding for nothing, and a displacement for the distance from the end of
/// its instruction to its label.
pub open spec fn resolve_prefix(
    program: Seq<CodeUnit>,
    ends: Seq<usize>,
    labels: Seq<(Seq<char>, usize)>,
    n: nat,
) -> Result<Seq<u8>, ErrorModel>
    decreases n,
{
    if n == 0 {
        Ok(Seq::empty())
    } else {
        match resolve_prefix(program, ends, labels, (n - 1) as nat) {
            Err(k) => Err(k),
            Ok(out) => {
                let i = n - 1;
                match program[i] {
                    CodeUnit::Byte(b) => Ok(out.push(b)),
                    CodeUnit::Padding => Ok(out),
                    CodeUnit::Displacement32(name) => match lookup(labels, name) {
                        None => Err(fault(ErrorKind::UnknownLabel, name)),
                        Some(target) => {
                            let end = i + ends[i];
                            if target > i32::MAX || end > i32::MAX {
                                Err(fault(ErrorKind::TooLarge, name))
                            } else {
                                Ok(out + le_i32(target - end))
                            }
                        },
                    },
                }
            },
        }
    }
}

/// The bytes of a whole program.
pub open spec fn resolve(program: Seq<CodeUnit>, ends: Seq<usize>, labels: Seq<(Seq<char>, usize)>) -> Result<
    Seq<u8>,
    ErrorModel,
> {
    resolve_prefix(program, ends, labels, program.len())
}

/// The sections that a source text assembles to: the data sections in the
/// order of their declarations, then the code section.
pub open spec fn assemble_source(source: Seq<char>) -> Result<Seq<SectionModel>, ErrorModel> {
    match pass_lines(pieces(source, Split::Lines)) {
        Err(k) => Err(k),
        Ok(st) => match resolve(st.program, st.ends, st.labels) {
            Err(k) => Err(k),
            Ok(code) => Ok(st.sections.push(SectionModel { name: CODE_SECTION_NAME@, bytes: code })),
        },
    }
}

/// Whether `r` is the outcome that `s` describes.
pub open spec fn sections_outcome(
    r: Result<Vec<DataSection>, AsmError>,
    s: Result<Seq<SectionModel>, ErrorModel>,
) -> bool {
    match s {
        Ok(sections) => r is Ok && r->Ok_0.deep_view() == sections,
        Err(k) => r is Err && r->Err_0.model() == k,
    }
}

proof fn lemma_resolve_error_persists(
    program: Seq<CodeUnit>,
    ends: Seq<usize>,
    labels: Seq<(Seq<char>, usize)>,
    k: nat,
    m: nat,
)
    requires
        k <= m,
        resolve_prefix(program, ends, labels, k) is Err,
    ensures
        resolve_prefix(program, ends, labels, m) == resolve_prefix(program, ends, labels, k),
    decreases m - k,
{
    if k < m {
        lemma_resolve_error_persists(program, ends, labels, k, (m - 1) as nat);
    }
}

proof fn lemma_pass_error_persists(lines: Seq<Seq<char>>, k: int)
    requires
        0 <= k <= lines.len(),
        pass_lines(lines.subrange(0, k)) is Err,
    ensures
        pass_lines(lines) == pass_lines(lines.subrange(0, k)),
    decreases lines.len() - k,
{
    if k < lines.len() {
        let part = lines.subrange(0, k + 1);
        assert(part.drop_last() =~= lines.subrange(0, k));
        lemma_pass_error_persists(lines, k + 1);
    } else {
        assert(lines.subrange(0, k) =~= lines);
    }
}

/// The position of the entry declared last under `key`.
fn find_entry<V: DeepView>(entries: &Vec<(String, V)>, key: &String) -> (r: Option<usize>)
    ensures
        match r {
            Some(j) => j < entries.len() && lookup(entries.deep_view(), key@) == Some(
                entries.deep_view()[j as int].1,
            ),
            None => lookup(entries.deep_view(), key@) is None,
        },
{
    let ghost all = entries.deep_view();
    let mut i = entries.len();
    assert(all.subrange(0, i as int) =~= all);
    while i > 0
        invariant
            i <= entries.len(),
            all == entries.deep_view(),
            lookup(all, key@) == lookup(all.subrange(0, i as int), key@),
        decreases i,
    {
        let ghost part = all.subrange(0, i as int);
        assert(part.drop_last() =~= all.subrange(0, i - 1));
        assert(part.last() == all[i - 1]);
        if entries[i - 1].0 == *key {
            return Some(i - 1);
        }
        i = i - 1;
    }
    None
}

/// Replaces each constant reference of `tokens` by the token its constant
/// stands for.
fn substitute_constants(tokens: Vec<Token>, constants: &Vec<(String, Token)>) -> (r: Result<
    Vec<Token>,
    AsmError,
>)
    ensures
        match substitute(tokens.deep_view(), constants.deep_view()) {
            Ok(s) => r is Ok && r->Ok_0.deep_view() == s,
            Err(k) => r is Err && r->Err_0.model() == k,
        },
{
    let ghost toks = tokens.deep_view();
    let ghost table = constants.deep_view();
    let mut out: Vec<Token> = Vec::new();
    let mut i: usize = 0;
    while i < tokens.len()
        invariant
            0 <= i <= tokens.len(),
            toks == tokens.deep_view(),
            table == constants.deep_view(),
            out.deep_view() == toks.subrange(0, i as int).map_values(
                |t: TokenModel| substituted(t, table),
            ),
            forall|j: int| 0 <= j < i ==> !unknown_reference(#[trigger] toks[j], table),
            first_unknown(toks, table, 0) == first_unknown(toks, table, i as nat),
        decreases tokens.len() - i,
    {
        let t = &tokens[i];
        let ghost before = out.deep_view();
        let replacement = match t.t {
            Some(TokenType::ConstantReference) => match find_entry(constants, &t.value) {
                Some(j) => constants[j].1.duplicate(),
                None => {
                    assert(unknown_reference(toks[i as int], table));
                    return Err(AsmError::new(ErrorKind::UnknownConstant, t.value.clone()));
                },
            },
            _ => t.duplicate(),
        };
        out.push(replacement);
        proof {
            assert(out.deep_view() =~= before.push(replacement@));
            assert(toks.subrange(0, i + 1).map_values(|t: TokenModel| substituted(t, table))
                =~= toks.subrange(0, i as int).map_values(|t: TokenModel| substituted(t, table)).push(
                substituted(toks[i as int], table),
            ));
        }
        i = i + 1;
    }
    assert(toks.subrange(0, i as int) =~= toks);
    Ok(out)
}

/// The bytes of the words `tokens[1..]` of a section declaration.
fn data_words(tokens: &Vec<Token>) -> (r: Result<Vec<u8>, AsmError>)
    requires
        tokens.len() >= 1,
    ensures
        match section_bytes(tokens.deep_view().drop_first()) {
            Ok(b) => r is Ok && r->Ok_0@ == b,
            Err(k) => r is Err && r->Err_0.model() == k,
        },
{
    let ghost words = tokens.deep_view().drop_first();
    let mut bytes: Vec<u8> = Vec::new();
    let mut i: usize = 1;
    assert(words.subrange(0, words.len() as int) =~= words);
    assert(bytes@ + Seq::<u8>::empty() =~= bytes@);
    while i < tokens.len()
        invariant
            1 <= i <= tokens.len(),
            words == tokens.deep_view().drop_first(),
            section_bytes(words) == match section_bytes(words.subrange(i - 1, words.len() as int)) {
                Ok(rest) => Ok(bytes@ + rest),
                Err(k) => Err(k),
            },
        decreases tokens.len() - i,
    {
        let ghost rest = words.subrange(i - 1, words.len() as int);
        assert(rest[0] == tokens[i as int]@);
        assert(rest.drop_first() =~= words.subrange(i as int, words.len() as int));
        let t = &tokens[i];
        match t.t {
            Some(TokenType::Memory) => {},
            _ => return Err(AsmError::new(ErrorKind::DataToken, t.value.clone())),
        }
        let v = match parse_i32(t.value.as_str()) {
            Some(v) => v,
            None => return Err(AsmError::new(ErrorKind::Parse, t.value.clone())),
        };
        let ghost before = bytes@;
        let u: u32 = if v < 0 {
            (v as i64 + 0x1_0000_0000) as u32
        } else {
            v as u32
        };
        push_u32(&mut bytes, u);
        proof {
            assert(le_i32(v as int) == le_u32(u));
            match section_bytes(words.subrange(i as int, words.len() as int)) {
                Ok(more) => {
                    assert(before + (le_i32(v as int) + more) =~= bytes@ + more);
                },
                Err(_) => {},
            }
        }
        i = i + 1;
    }
    assert(words.subrange(i - 1, words.len() as int) =~= Seq::<TokenModel>::empty());
    assert(bytes@ + Seq::<u8>::empty() =~= bytes@);
    Ok(bytes)
}

/// The state of the first pass.
struct Pass {
    program: Vec<IntermediateCode>,
    ends: Vec<usize>,
    labels: Vec<(String, usize)>,
    constants: Vec<(String, Token)>,
    sections: Vec<DataSection>,
}

impl Pass {
    spec fn model(&self) -> PassModel {
        PassModel {
            program: self.program.deep_view(),
            ends: self.ends@,
            labels: self.labels.deep_view(),
            constants: self.constants.deep_view(),
            sections: self.sections.deep_view(),
        }
    }

    fn new() -> (r: Pass)
        ensures
            r.model() == initial_pass(),
            r.ends.len() == r.program.len(),
    {
        let r = Pass {
            program: Vec::new(),
            ends: Vec::new(),
            labels: Vec::new(),
            constants: Vec::new(),
            sections: Vec::new(),
        };
        assert(r.model().program =~= Seq::<CodeUnit>::empty());
        assert(r.model().labels =~= Seq::<(Seq<char>, usize)>::empty());
        assert(r.model().constants =~= Seq::<(Seq<char>, TokenModel)>::empty());
        assert(r.model().sections =~= Seq::<SectionModel>::empty());
        r
    }

    /// Appends one encoded instruction, padded, with the distances from its
    /// displacements to its end.
    fn append_instruction(&mut self, code: Vec<IntermediateCode>)
        requires
            old(self).ends.len() == old(self).program.len(),
        ensures
            final(self).model() == (PassModel {
                program: old(self).model().program + padded(code.deep_view()),
                ends: old(self).model().ends + end_offsets(padded(code.deep_view())),
                ..old(self).model()
            }),
            final(self).ends.len() == final(self).program.len(),
    {
        let ghost units = code.deep_view();
        let mut p: Vec<IntermediateCode> = Vec::new();
        let mut i: usize = 0;
        while i < code.len()
            invariant
                0 <= i <= code.len(),
                units == code.deep_view(),
                p.deep_view() == padded(units.subrange(0, i as int)),
                *self == *old(self),
            decreases code.len() - i,
        {
            let ghost before = p.deep_view();
            match &code[i] {
                IntermediateCode::Byte(b) => {
                    p.push(IntermediateCode::Byte(*b));
                },
                IntermediateCode::Displacement32(name) => {
                    p.push(IntermediateCode::Displacement32(name.clone()));
                    p.push(IntermediateCode::Padding);
                    p.push(IntermediateCode::Padding);
                    p.push(IntermediateCode::Padding);
                },
                IntermediateCode::Padding => {
                    p.push(IntermediateCode::Padding);
                },
            }
            proof {
                let part = units.subrange(0, i + 1);
                assert(part.drop_last() =~= units.subrange(0, i as int));
                assert(part.last() == units[i as int]);
                assert(p.deep_view() =~= before + padding_of(units[i as int]));
            }
            i = i + 1;
        }
        assert(units.subrange(0, i as int) =~= units);
        let ghost offsets = end_offsets(p.deep_view());
        let ghost old_ends = self.ends@;
        let len = p.len();
        let mut j: usize = 0;
        while j < len
            invariant
                0 <= j <= len,
                len == p.len(),
                offsets == end_offsets(p.deep_view()),
                self.ends@ == old_ends + offsets.subrange(0, j as int),
                old_ends == old(self).ends@,
                self.program == old(self).program,
                self.labels == old(self).labels,
                self.constants == old(self).constants,
                self.sections == old(self).sections,
                p.deep_view() == padded(code.deep_view()),
            decreases len - j,
        {
            let e: usize = match &p[j] {
                IntermediateCode::Displacement32(_) => len - j,
                _ => 0,
            };
            self.ends.push(e);
            assert(offsets.subrange(0, j + 1) =~= offsets.subrange(0, j as int).push(e));
            j = j + 1;
        }
        assert(offsets.subrange(0, j as int) =~= offsets);
        let ghost old_program = self.program.deep_view();
        let ghost added = p.deep_view();
        self.program.append(&mut p);
        assert(self.program.deep_view() =~= old_program + added);
        assert(self.ends@.len() == old(self).ends@.len() + added.len());
    }

    /// Applies one statement.
    fn statement(&mut self, tokens: Vec<Token>) -> (r: Result<(), AsmError>)
        requires
            old(self).ends.len() == old(self).program.len(),
        ensures
            final(self).ends.len() == final(self).program.len(),
            match statement_step(old(self).model(), tokens.deep_view()) {
                Ok(st) => r is Ok && final(self).model() == st,
                Err(k) => r is Err && r->Err_0.model() == k,
            },
    {
        let ghost toks = tokens.deep_view();
        if tokens.len() == 0 {
            return Ok(());
        }
        match tokens[0].t {
            Some(TokenType::Constant) => {
                if tokens.len() != 2 {
                    return Err(AsmError::new(ErrorKind::Arity, tokens[0].value.clone()));
                }
                let entry = (tokens[0].value.clone(), tokens[1].duplicate());
                self.constants.push(entry);
                assert(self.model().constants =~= old(self).model().constants.push(
                    (toks[0].value, toks[1]),
                ));
                return Ok(());
            },
            Some(TokenType::Label) => {
                if tokens.len() != 1 {
                    return Err(AsmError::new(ErrorKind::Arity, tokens[0].value.clone()));
                }
                let entry = (tokens[0].value.clone(), self.program.len());
                self.labels.push(entry);
                assert(self.model().labels =~= old(self).model().labels.push(
                    (toks[0].value, old(self).program.len()),
                ));
                return Ok(());
            },
            Some(TokenType::Section) => {
                let count = self.sections.len();
                if count > (0xffff_ffff - DATA_SECTION_VIRTUAL_START) as usize / PAGE_SIZE as usize {
                    return Err(AsmError::new(ErrorKind::TooLarge, tokens[0].value.clone()));
                }
                let address = DATA_SECTION_VIRTUAL_START + PAGE_SIZE * (count as u32);
                assert(section_address(count as nat) == address);
                let bytes = match data_words(&tokens) {
                    Ok(b) => b,
                    Err(e) => return Err(e),
                };
                let mut text = String::new();
                push_decimal(&mut text, address);
                assert(text@ =~= decimal(address as nat));
                let value = Token { t: Some(TokenType::Value), value: text };
                self.constants.push((tokens[0].value.clone(), value));
                self.sections.push(DataSection { name: tokens[0].value.clone(), bytes });
                assert(self.model().constants =~= old(self).model().constants.push(
                    (toks[0].value, TokenModel { t: Some(TokenType::Value), value: decimal(address as nat) }),
                ));
                assert(self.model().sections =~= old(self).model().sections.push(
                    SectionModel { name: toks[0].value, bytes: bytes@ },
                ));
                return Ok(());
            },
            _ => {},
        }
        let substituted = match substitute_constants(tokens, &self.constants) {
            Ok(s) => s,
            Err(e) => return Err(e),
        };
        let code = match compile(substituted) {
            Ok(c) => c,
            Err(e) => return Err(e),
        };
        self.append_instruction(code);
        Ok(())
    }

    /// The second pass: the bytes of the program.
    fn resolve(&self) -> (r: Result<Vec<u8>, AsmError>)
        requires
            self.ends.len() == self.program.len(),
        ensures
            match resolve(self.model().program, self.model().ends, self.model().labels) {
                Ok(b) => r is Ok && r->Ok_0@ == b,
                Err(k) => r is Err && r->Err_0.model() == k,
            },
    {
        let ghost m = self.model();
        let mut out: Vec<u8> = Vec::new();
        let n = self.program.len();
        let mut i: usize = 0;
        while i < n
            invariant
                0 <= i <= n,
                n == self.program.len(),
                self.ends.len() == n,
                m == self.model(),
                resolve_prefix(m.program, m.ends, m.labels, i as nat) == Ok::<Seq<u8>, ErrorModel>(
                    out@,
                ),
            decreases n - i,
        {
            match &self.program[i] {
                IntermediateCode::Byte(b) => {
                    out.push(*b);
                },
                IntermediateCode::Padding => {},
                IntermediateCode::Displacement32(name) => {
                    let j = match find_entry(&self.labels, name) {
                        Some(j) => j,
                        None => {
                            proof {
                                lemma_resolve_error_persists(m.program, m.ends, m.labels, (i + 1) as nat, n as nat);
                            }
                            return Err(AsmError::new(ErrorKind::UnknownLabel, name.clone()));
                        },
                    };
                    let target = self.labels[j].1;
                    let offset = self.ends[i];
                    if target > 0x7fff_ffff || offset > 0x7fff_ffff || i > 0x7fff_ffff - offset {
                        proof {
                            lemma_resolve_error_persists(m.program, m.ends, m.labels, (i + 1) as nat, n as nat);
                        }
                        return Err(AsmError::new(ErrorKind::TooLarge, name.clone()));
                    }
                    let d: i64 = target as i64 - (i + offset) as i64;
                    let u: u32 = if d < 0 {
                        (d + 0x1_0000_0000) as u32
                    } else {
                        d as u32
                    };
                    push_u32(&mut out, u);
                },
            }
            i = i + 1;
        }
        Ok(out)
    }
}

/// Assembles a source text into its sections: the data sections in the
/// order of their declarations, then the code section.
pub fn assemble(source: &str) -> (r: Result<Vec<DataSection>, AsmError>)
    ensures
        sections_outcome(r, assemble_source(source@)),
{
    let chars = chars_of(source);
    let ranges = split_pieces(&chars, Split::Lines);
    let ghost lines = pieces(chars@, Split::Lines);
    let mut pass = Pass::new();
    let mut k: usize = 0;
    while k < ranges.len()
        invariant
            0 <= k <= ranges.len(),
            chars@ == source@,
            lines == pieces(chars@, Split::Lines),
            bounds_of_pieces(chars@, Split::Lines, ranges@),
            pass.ends.len() == pass.program.len(),
            pass_lines(lines.subrange(0, k as int)) == Ok::<PassModel, ErrorModel>(pass.model()),
        decreases ranges.len() - k,
    {
        let (lo, hi) = ranges[k];
        let line = source.substring_char(lo, hi);
        assert(line@ == lines[k as int]);
        let ghost part = lines.subrange(0, k + 1);
        assert(part.drop_last() =~= lines.subrange(0, k as int));
        let tokens = match tokenize(line) {
            Ok(t) => t,
            Err(e) => {
                proof {
                    lemma_pass_error_persists(lines, k + 1);
                }
                return Err(e);
            },
        };
        match pass.statement(tokens) {
            Ok(()) => {},
            Err(e) => {
                proof {
                    lemma_pass_error_persists(lines, k + 1);
                }
                return Err(e);
            },
        }
        k = k + 1;
    }
    assert(lines.subrange(0, k as int) =~= lines);
    let code = match pass.resolve() {
        Ok(c) => c,
        Err(e) => return Err(e),
    };
    let ghost before = pass.sections.deep_view();
    pass.sections.push(DataSection { name: String::from_str(CODE_SECTION_NAME), bytes: code });
    assert(pass.sections.deep_view() =~= before.push(
        SectionModel { name: CODE_SECTION_NAME@, bytes: code@ },
    ));
    Ok(pass.sections)
}

/// The number of bytes that an instruction's code stands for: one per
/// byte, four per displacement.
pub open spec fn encoded_size(code: Seq<CodeUnit>) -> nat
    decreases code.len(),
{
    if code.len() == 0 {
        0
    } else {
        encoded_size(code.drop_last()) + match code.last() {
            CodeUnit::Displacement32(_) => 4nat,
            CodeUnit::Byte(_) => 1nat,
            CodeUnit::Padding => 1nat,
        }
    }
}

/// Padding gives an instruction as many units as its encoding has bytes, so
/// that positions in the padded program are byte offsets.
pub proof fn lemma_padded_length_is_encoded_size(code: Seq<CodeUnit>)
    ensures
        padded(code).len() == encoded_size(code),
    decreases code.len(),
{
    if code.len() > 0 {
        lemma_padded_length_is_encoded_size(code.drop_last());
    }
}

/// A jump takes five units once padded: its opcode and the four of its
/// displacement, which is the last of them.
pub proof fn lemma_padded_jump(operation: TokenModel, target: TokenModel)
    requires
        jump_code(operation, target) is Ok,
    ensures
        padded(jump_code(operation, target)->Ok_0).len() == 5,
        end_offsets(padded(jump_code(operation, target)->Ok_0))[1] == 4,
{
    let code = jump_code(operation, target)->Ok_0;
    assert(code == seq![CodeUnit::Byte(0xe9), CodeUnit::Displacement32(target.value)]);
    assert(code.drop_last() =~= seq![CodeUnit::Byte(0xe9)]);
    assert(code.drop_last().drop_last() =~= Seq::<CodeUnit>::empty());
    assert(padded(code.drop_last().drop_last()) == Seq::<CodeUnit>::empty());
    assert(padded(code.drop_last()) =~= seq![CodeUnit::Byte(0xe9)]);
    assert(padded(code) =~= seq![
        CodeUnit::Byte(0xe9),
        CodeUnit::Displacement32(target.value),
        CodeUnit::Padding,
        CodeUnit::Padding,
        CodeUnit::Padding,
    ]);
}

/// Assembling depends on the source text alone: two runs on the same text
/// give the same sections and the same ELF image, byte for byte.
pub proof fn lemma_same_source_same_image(
    source: Seq<char>,
    first: Vec<DataSection>,
    second: Vec<DataSection>,
    first_image: Result<Vec<u8>, AsmError>,
    second_image: Result<Vec<u8>, AsmError>,
)
    requires
        sections_outcome(Ok(first), assemble_source(source)),
        sections_outcome(Ok(second), assemble_source(source)),
        image_outcome(first_image, elf_fits(first.deep_view()), elf_image(first.deep_view())),
        image_outcome(second_image, elf_fits(second.deep_view()), elf_image(second.deep_view())),
    ensures
        first.deep_view() == second.deep_view(),
        first_image is Ok <==> second_image is Ok,
        first_image is Ok ==> first_image->Ok_0@ == second_image->Ok_0@,
{
}

/// Whether a displacement stands at position `i` of `p`.
pub open spec fn displacement_at(p: Seq<CodeUnit>, i: int) -> bool {
    0 <= i < p.len() && p[i] is Displacement32
}

/// Whether padding stands at position `i` of `p`.
pub open spec fn padding_at(p: Seq<CodeUnit>, i: int) -> bool {
    0 <= i < p.len() && p[i] is Padding
}

/// Whether each displacement of `p` is followed by three units of padding,
/// and each unit of padding follows a displacement by at most three units.
pub open spec fn well_padded(p: Seq<CodeUnit>) -> bool {
    &&& forall|i: int|
        #[trigger] displacement_at(p, i) ==> i + 3 < p.len() && p[i + 1] is Padding && p[i
            + 2] is Padding && p[i + 3] is Padding
    &&& forall|i: int|
        #[trigger] padding_at(p, i) ==> (i >= 1 && p[i - 1] is Displacement32) || (i >= 2 && p[i
            - 2] is Displacement32) || (i >= 3 && p[i - 3] is Displacement32)
}

/// How many bytes the resolution of the first `n` units of `p` has beyond
/// `n`: those of a displacement whose padding is not yet reached.
pub open spec fn excess(p: Seq<CodeUnit>, n: int) -> int {
    if n >= 1 && p[n - 1] is Displacement32 {
        3
    } else if n >= 2 && p[n - 2] is Displacement32 {
        2
    } else if n >= 3 && p[n - 3] is Displacement32 {
        1
    } else {
        0
    }
}

/// The bytes of a resolved prefix stand at the positions of their units.
pub open spec fn resolved_in_place(
    p: Seq<CodeUnit>,
    ends: Seq<usize>,
    labels: Seq<(Seq<char>, usize)>,
    out: Seq<u8>,
    n: int,
) -> bool {
    &&& forall|i: int|
        0 <= i < n && (#[trigger] p[i]) is Byte ==> i < out.len() && out[i] == p[i]->Byte_0
    &&& forall|i: int|
        0 <= i < n && (#[trigger] p[i]) is Displacement32 ==> i + 4 <= out.len() && out.subrange(
            i,
            i + 4,
        ) == le_i32(lookup(labels, p[i]->Displacement32_0)->0 - (i + ends[i]))
}

proof fn lemma_resolve_prefix_in_place(
    p: Seq<CodeUnit>,
    ends: Seq<usize>,
    labels: Seq<(Seq<char>, usize)>,
    n: nat,
)
    requires
        well_padded(p),
        n <= p.len(),
        resolve_prefix(p, ends, labels, n) is Ok,
    ensures
        resolve_prefix(p, ends, labels, n)->Ok_0.len() == n + excess(p, n as int),
        resolved_in_place(p, ends, labels, resolve_prefix(p, ends, labels, n)->Ok_0, n as int),
    decreases n,
{
    if n > 0 {
        let m = (n - 1) as nat;
        lemma_resolve_prefix_in_place(p, ends, labels, m);
        let out = resolve_prefix(p, ends, labels, m)->Ok_0;
        let next = resolve_prefix(p, ends, labels, n)->Ok_0;
        let i = m as int;
        // A unit within three of a displacement is its padding.
        if i >= 1 && p[i - 1] is Displacement32 {
            assert(displacement_at(p, i - 1));
        }
        if i >= 2 && p[i - 2] is Displacement32 {
            assert(displacement_at(p, i - 2));
        }
        if i >= 3 && p[i - 3] is Displacement32 {
            assert(displacement_at(p, i - 3));
        }
        if p[i] is Padding {
            assert(padding_at(p, i));
        }
        if p[i] is Displacement32 {
            assert(displacement_at(p, i));
        }
        assert(out.len() <= next.len());
        assert(next.subrange(0, out.len() as int) =~= out);
        assert forall|j: int| 0 <= j < n && (#[trigger] p[j]) is Byte implies j < next.len()
            && next[j] == p[j]->Byte_0 by {
            if j < i {
                assert(next[j] == next.subrange(0, out.len() as int)[j]);
            }
        }
        assert forall|j: int| 0 <= j < n && (#[trigger] p[j]) is Displacement32 implies j + 4
            <= next.len() && next.subrange(j, j + 4) == le_i32(
            lookup(labels, p[j]->Displacement32_0)->0 - (j + ends[j]),
        ) by {
            if j < i {
                assert(displacement_at(p, j));
                assert(next.subrange(j, j + 4) =~= out.subrange(j, j + 4));
            } else {
                assert(next.subrange(j, j + 4) =~= le_i32(
                    lookup(labels, p[j]->Displacement32_0)->0 - (j + ends[j]),
                ));
            }
        }
    }
}

/// Whether `code` is the code of one instruction: bytes, of which the last
/// may be a displacement instead.
pub open spec fn instruction_shape(code: Seq<CodeUnit>) -> bool {
    &&& code.len() >= 1
    &&& forall|j: int| 0 <= j < code.len() - 1 ==> (#[trigger] code[j]) is Byte
    &&& !(code.last() is Padding)
}

proof fn lemma_units_are_bytes(bytes: Seq<u8>)
    ensures
        forall|j: int| 0 <= j < units(bytes).len() ==> (#[trigger] units(bytes)[j]) is Byte,
        units(bytes).len() == bytes.len(),
{
}

/// In every instruction a displacement is the last unit, so the end of its
/// padding is the end of its instruction.
#[verifier::rlimit(100)]
pub proof fn lemma_displacement_ends_its_instruction(tokens: Seq<TokenModel>)
    requires
        encode_statement(tokens) is Ok,
    ensures
        instruction_shape(encode_statement(tokens)->Ok_0),
{
    let code = encode_statement(tokens)->Ok_0;
    assert forall|v: u32, j: int| 0 <= j < imm32(v).len() implies (#[trigger] imm32(v)[j]) is Byte by {
        lemma_units_are_bytes(le_u32(v));
    }
    assert forall|j: int| 0 <= j < code.len() - 1 implies (#[trigger] code[j]) is Byte by {
        if j >= 2 {
            assert(code[j] == code.subrange(2, code.len() as int)[j - 2]);
        }
        if j >= 1 {
            assert(code[j] == code.subrange(1, code.len() as int)[j - 1]);
        }
    }
}

proof fn lemma_padded_bytes(code: Seq<CodeUnit>)
    requires
        forall|j: int| 0 <= j < code.len() ==> (#[trigger] code[j]) is Byte,
    ensures
        padded(code) == code,
    decreases code.len(),
{
    if code.len() > 0 {
        lemma_padded_bytes(code.drop_last());
        assert(padded(code) =~= code);
    }
}

proof fn lemma_padded_instruction(code: Seq<CodeUnit>)
    requires
        instruction_shape(code),
    ensures
        padded(code) == code.drop_last() + padding_of(code.last()),
{
    lemma_padded_bytes(code.drop_last());
}

/// What the first pass keeps true: the program is padded, with one end
/// offset per unit, and the end offset of each displacement is four, the
/// distance from it to the end of its instruction.
pub open spec fn pass_invariant(st: PassModel) -> bool {
    &&& well_padded(st.program)
    &&& st.ends.len() == st.program.len()
    &&& forall|i: int| #[trigger] displacement_at(st.program, i) ==> st.ends[i] == 4
}

proof fn lemma_append_instruction(st: PassModel, code: Seq<CodeUnit>)
    requires
        pass_invariant(st),
        instruction_shape(code),
    ensures
        pass_invariant(
            PassModel {
                program: st.program + padded(code),
                ends: st.ends + end_offsets(padded(code)),
                ..st
            },
        ),
{
    lemma_padded_instruction(code);
    let q = padded(code);
    let p = st.program + q;
    let e = st.ends + end_offsets(q);
    let base = st.program.len() as int;
    let last = code.len() - 1;
    assert forall|i: int| #[trigger] displacement_at(p, i) implies i + 3 < p.len() && p[i
        + 1] is Padding && p[i + 2] is Padding && p[i + 3] is Padding && e[i] == 4 by {
        if i < base {
            assert(displacement_at(st.program, i));
        } else {
            assert(q[i - base] is Displacement32);
            if i - base < last {
                assert(q[i - base] == code[i - base]);
            }
            assert(i - base == last);
        }
    }
    assert forall|i: int| #[trigger] padding_at(p, i) implies (i >= 1 && p[i - 1] is Displacement32)
        || (i >= 2 && p[i - 2] is Displacement32) || (i >= 3 && p[i - 3] is Displacement32) by {
        if i < base {
            assert(padding_at(st.program, i));
        } else {
            if i - base < last {
                assert(q[i - base] == code[i - base]);
            }
            if i - base == last {
                assert(q[i - base] == code.last());
            }
            assert(code.last() is Displacement32);
            assert(p[base + last] is Displacement32);
        }
    }
}

/// The first pass keeps its invariant, line after line.
pub proof fn lemma_pass_invariant(lines: Seq<Seq<char>>)
    requires
        pass_lines(lines) is Ok,
    ensures
        pass_invariant(pass_lines(lines)->Ok_0),
    decreases lines.len(),
{
    if lines.len() == 0 {
        assert(well_padded(initial_pass().program)) by {
            assert forall|i: int| #[trigger] displacement_at(initial_pass().program, i) implies false by {}
            assert forall|i: int| #[trigger] padding_at(initial_pass().program, i) implies false by {}
        }
    } else {
        lemma_pass_invariant(lines.drop_last());
        let st = pass_lines(lines.drop_last())->Ok_0;
        let tokens = line_tokens(lines.last())->Ok_0;
        if tokens.len() > 0 && tokens[0].t != Some(TokenType::Constant) && tokens[0].t != Some(
            TokenType::Label,
        ) && tokens[0].t != Some(TokenType::Section) {
            let s = substitute(tokens, st.constants)->Ok_0;
            lemma_displacement_ends_its_instruction(s);
            lemma_append_instruction(st, encode_statement(s)->Ok_0);
        }
    }
}

/// Positions in an assembled program are byte offsets: each byte of the
/// code section stands at the position of its unit, and the four bytes of
/// each displacement hold the position of its label minus the position just
/// past the displacement, which is the end of its instruction. This holds
/// wherever the instruction stands and whether the label comes before or
/// after it.
pub proof fn lemma_displacements_are_relative_to_instruction_end(source: Seq<char>)
    requires
        assemble_source(source) is Ok,
    ensures
        ({
            let st = pass_lines(pieces(source, Split::Lines))->Ok_0;
            let code = assemble_source(source)->Ok_0.last().bytes;
            &&& code.len() == st.program.len()
            &&& forall|i: int|
                0 <= i < st.program.len() && (#[trigger] st.program[i]) is Byte ==> code[i]
                    == st.program[i]->Byte_0
            &&& forall|i: int|
                0 <= i < st.program.len() && (#[trigger] st.program[i]) is Displacement32
                    ==> code.subrange(i, i + 4) == le_i32(
                    lookup(st.labels, st.program[i]->Displacement32_0)->0 - (i + 4),
                )
        }),
{
    let lines = pieces(source, Split::Lines);
    lemma_pass_invariant(lines);
    let st = pass_lines(lines)->Ok_0;
    let n = st.program.len();
    lemma_resolve_prefix_in_place(st.program, st.ends, st.labels, n);
    let code = resolve(st.program, st.ends, st.labels)->Ok_0;
    assert(assemble_source(source)->Ok_0.last().bytes == code);
    if n >= 1 && st.program[n - 1] is Displacement32 {
        assert(displacement_at(st.program, n - 1));
    }
    if n >= 2 && st.program[n - 2] is Displacement32 {
        assert(displacement_at(st.program, n - 2));
    }
    if n >= 3 && st.program[n - 3] is Displacement32 {
        assert(displacement_at(st.program, n - 3));
    }
    assert forall|i: int|
        0 <= i < st.program.len() && (#[trigger] st.program[i]) is Displacement32 implies code.subrange(
        i,
        i + 4,
    ) == le_i32(lookup(st.labels, st.program[i]->Displacement32_0)->0 - (i + 4)) by {
        assert(displacement_at(st.program, i));
    }
}

} // verus!
