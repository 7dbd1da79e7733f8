//! Splits a source line into typed tokens.

use vstd::prelude::*;
use vstd::string::*;

use crate::common::{fault, AsmError, ErrorKind, ErrorModel, Token, TokenModel, TokenType};
use crate::text::{chars_of, parse_u32, parse_unsigned};

verus! {

/// How a text is cut into pieces.
#[derive(Clone, Copy, Debug, PartialEq, Eq, Structural)]
pub enum Split {
    /// A source text into lines, at each `\n`.
    Lines,
    /// A line into words, at each space and `~`.
    Words,
}

/// Whether `c` separates two pieces.
pub open spec fn separates(by: Split, c: char) -> bool {
    match by {
        Split::Lines => c == '\n',
        Split::Words => c == ' ' || c == '~',
    }
}

/// Unicode's `White_Space` characters.
pub open spec fn is_white_space(c: char) -> bool {
    ('\t' <= c && c <= '\r') || c == ' ' || c == '\u{85}' || c == '\u{a0}' || c == '\u{1680}' || (
    '\u{2000}' <= c && c <= '\u{200a}') || c == '\u{2028}' || c == '\u{2029}' || c == '\u{202f}'
        || c == '\u{205f}' || c == '\u{3000}'
}

/// A set of characters that trimming removes from both ends of a word.
#[derive(Clone, Copy, Debug, PartialEq, Eq, Structural)]
pub enum TrimSet {
    /// Commas and white space, around every word.
    Blank,
    /// The marks around a label declaration.
    LabelMarks,
}

pub open spec fn trims(set: TrimSet, c: char) -> bool {
    match set {
        TrimSet::Blank => c == ',' || is_white_space(c),
        TrimSet::LabelMarks => c == ':' || c == '📪',
    }
}

pub open spec fn trim_start(s: Seq<char>, set: TrimSet) -> Seq<char>
    decreases s.len(),
{
    if s.len() > 0 && trims(set, s[0]) {
        trim_start(s.drop_first(), set)
    } else {
        s
    }
}

pub open spec fn trim_end(s: Seq<char>, set: TrimSet) -> Seq<char>
    decreases s.len(),
{
    if s.len() > 0 && trims(set, s.last()) {
        trim_end(s.drop_last(), set)
    } else {
        s
    }
}

/// `s` without the characters of `set` at either end.
pub open spec fn trim(s: Seq<char>, set: TrimSet) -> Seq<char> {
    trim_end(trim_start(s, set), set)
}

/// The pieces of `s` between separators, empty ones included.
pub open spec fn pieces(s: Seq<char>, by: Split) -> Seq<Seq<char>>
    decreases s.len(),
{
    if s.len() == 0 {
        seq![Seq::empty()]
    } else {
        let p = pieces(s.drop_last(), by);
        if separates(by, s.last()) {
            p.push(Seq::empty())
        } else {
            p.update(p.len() - 1, p.last().push(s.last()))
        }
    }
}

proof fn lemma_pieces_nonempty(s: Seq<char>, by: Split)
    ensures
        pieces(s, by).len() >= 1,
    decreases s.len(),
{
    if s.len() > 0 {
        lemma_pieces_nonempty(s.drop_last(), by);
    }
}

pub open spec fn token(t: TokenType, value: Seq<char>) -> Result<TokenModel, ErrorModel> {
    Ok(TokenModel { t: Some(t), value })
}

/// The token that a trimmed, non-empty word stands for.
pub open spec fn word_token(w: Seq<char>) -> Result<TokenModel, ErrorModel> {
    if w == seq!['↩'] || w == seq!['🏠'] {
        token(TokenType::Return, w)
    } else if w == seq!['⬆'] {
        token(TokenType::Add, w)
    } else if w == seq!['➖'] {
        token(TokenType::Subtract, w)
    } else if w == seq!['✖'] {
        token(TokenType::Multiply, w)
    } else if w == seq!['⬅'] {
        token(TokenType::Move, w)
    } else if w == seq!['❗'] {
        token(TokenType::Interrupt, w)
    } else if w == seq!['⚪'] || w == seq!['🔴'] || w == seq!['🔵'] || w == seq!['⚫'] || w
        == seq!['◀'] || w == seq!['⬇'] {
        token(TokenType::Register, w)
    } else if w == seq!['🦘', '='] {
        token(TokenType::JumpIfEqual, w)
    } else if w == seq!['🦘', '≠'] {
        token(TokenType::JumpIfNotEqual, w)
    } else if w == seq!['🦘', '<'] {
        token(TokenType::JumpIfLess, w)
    } else if w == seq!['🦘', '≤'] {
        token(TokenType::JumpIfLessEqual, w)
    } else if w == seq!['🦘', '>'] {
        token(TokenType::JumpIfGreater, w)
    } else if w == seq!['🦘', '≥'] {
        token(TokenType::JumpIfGreaterEqual, w)
    } else if w == seq!['🦘'] {
        token(TokenType::Jump, w)
    } else if w == seq!['📞'] {
        token(TokenType::Call, w)
    } else if w == seq!['📥'] {
        token(TokenType::Push, w)
    } else if w == seq!['📤'] {
        token(TokenType::Pop, w)
    } else if w == seq!['⚖'] {
        token(TokenType::Compare, w)
    } else if w.len() > 0 && w[0] == '🖊' {
        token(TokenType::Constant, w.drop_first())
    } else if w.len() > 0 && w[0] == '📪' && w.last() == ':' {
        token(TokenType::Label, trim(w, TrimSet::LabelMarks))
    } else if w.len() > 0 && w[0] == '📗' {
        token(TokenType::Section, w.drop_first())
    } else if w.len() > 0 && w[0] == '✉' {
        token(TokenType::LabelReference, w.drop_first())
    } else if w.len() > 0 && w[0] == '$' {
        if parse_unsigned(w.drop_first(), u32::MAX as nat) is Some {
            token(TokenType::Value, w.drop_first())
        } else {
            Err(fault(ErrorKind::InvalidValue, w))
        }
    } else if parse_unsigned(w, u32::MAX as nat) is Some {
        token(TokenType::Memory, w)
    } else {
        token(TokenType::ConstantReference, w)
    }
}

/// The tokens of the words `ps`: blank words are skipped, and a word that
/// starts with `#` ends the line.
pub open spec fn tokens_of_pieces(ps: Seq<Seq<char>>) -> Result<Seq<TokenModel>, ErrorModel>
    decreases ps.len(),
{
    if ps.len() == 0 {
        Ok(Seq::empty())
    } else {
        let w = trim(ps[0], TrimSet::Blank);
        if w.len() == 0 {
            tokens_of_pieces(ps.drop_first())
        } else if w[0] == '#' {
            Ok(Seq::empty())
        } else {
            match word_token(w) {
                Err(k) => Err(k),
                Ok(t) => match tokens_of_pieces(ps.drop_first()) {
                    Err(k) => Err(k),
                    Ok(rest) => Ok(seq![t] + rest),
                },
            }
        }
    }
}

/// The tokens of a source line.
pub open spec fn line_tokens(line: Seq<char>) -> Result<Seq<TokenModel>, ErrorModel> {
    tokens_of_pieces(pieces(line, Split::Words))
}

/// Whether `r` is the outcome that `s` describes.
pub open spec fn tokens_outcome(
    r: Result<Vec<Token>, AsmError>,
    s: Result<Seq<TokenModel>, ErrorModel>,
) -> bool {
    match s {
        Ok(t) => r is Ok && r->Ok_0.deep_view() == t,
        Err(k) => r is Err && r->Err_0.model() == k,
    }
}

fn trims_exec(set: TrimSet, c: char) -> (r: bool)
    ensures
        r == trims(set, c),
{
    match set {
        TrimSet::Blank => c == ',' || ('\t' <= c && c <= '\r') || c == ' ' || c == '\u{85}' || c
            == '\u{a0}' || c == '\u{1680}' || ('\u{2000}' <= c && c <= '\u{200a}') || c
            == '\u{2028}' || c == '\u{2029}' || c == '\u{202f}' || c == '\u{205f}' || c
            == '\u{3000}',
        TrimSet::LabelMarks => c == ':' || c == '📪',
    }
}

/// The bounds of `chars[lo..hi]` trimmed of `set`.
fn trim_range(chars: &Vec<char>, lo: usize, hi: usize, set: TrimSet) -> (r: (usize, usize))
    requires
        lo <= hi <= chars.len(),
    ensures
        lo <= r.0 <= r.1 <= hi,
        chars@.subrange(r.0 as int, r.1 as int) == trim(
            chars@.subrange(lo as int, hi as int),
            set,
        ),
{
    let mut a = lo;
    while a < hi && trims_exec(set, chars[a])
        invariant
            lo <= a <= hi <= chars.len(),
            trim_start(chars@.subrange(lo as int, hi as int), set) == trim_start(
                chars@.subrange(a as int, hi as int),
                set,
            ),
        decreases hi - a,
    {
        assert(chars@.subrange(a as int, hi as int).drop_first() =~= chars@.subrange(
            a + 1,
            hi as int,
        ));
        a = a + 1;
    }
    assert(trim_start(chars@.subrange(a as int, hi as int), set) == chars@.subrange(
        a as int,
        hi as int,
    ));
    let mut b = hi;
    while b > a && trims_exec(set, chars[b - 1])
        invariant
            lo <= a <= b <= hi <= chars.len(),
            trim(chars@.subrange(lo as int, hi as int), set) == trim_end(
                chars@.subrange(a as int, b as int),
                set,
            ),
        decreases b - a,
    {
        assert(chars@.subrange(a as int, b as int).drop_last() =~= chars@.subrange(
            a as int,
            b - 1,
        ));
        b = b - 1;
    }
    (a, b)
}

/// Whether `r` holds the bounds of the pieces of `chars`, in order.
pub open spec fn bounds_of_pieces(chars: Seq<char>, by: Split, r: Seq<(usize, usize)>) -> bool {
    &&& r.len() == pieces(chars, by).len()
    &&& forall|k: int|
        0 <= k < r.len() ==> (#[trigger] r[k]).0 <= r[k].1 <= chars.len() && chars.subrange(
            r[k].0 as int,
            r[k].1 as int,
        ) == pieces(chars, by)[k]
}

/// The bounds of the pieces of `chars` between delimiters.
pub fn split_pieces(chars: &Vec<char>, by: Split) -> (r: Vec<(usize, usize)>)
    ensures
        bounds_of_pieces(chars@, by, r@),
{
    let mut r: Vec<(usize, usize)> = Vec::new();
    let mut start: usize = 0;
    let mut i: usize = 0;
    while i < chars.len()
        invariant
            0 <= start <= i <= chars.len(),
            r@.len() + 1 == pieces(chars@.subrange(0, i as int), by).len(),
            forall|k: int|
                0 <= k < r@.len() ==> (#[trigger] r@[k]).0 <= r@[k].1 <= chars.len()
                    && chars@.subrange(r@[k].0 as int, r@[k].1 as int) == pieces(
                    chars@.subrange(0, i as int),
                    by,
                )[k],
            pieces(chars@.subrange(0, i as int), by).last() == chars@.subrange(start as int, i as int),
        decreases chars.len() - i,
    {
        let ghost prefix = chars@.subrange(0, i as int);
        let ghost next = chars@.subrange(0, i + 1);
        let ghost old_r = r@;
        let ghost old_start = start;
        proof {
            assert(next.drop_last() =~= prefix);
            assert(next.last() == chars@[i as int]);
            lemma_pieces_nonempty(prefix, by);
        }
        let ghost pp = pieces(prefix, by);
        let ghost pn = pieces(next, by);
        let c = chars[i];
        let cut = match by {
            Split::Lines => c == '\n',
            Split::Words => c == ' ' || c == '~',
        };
        if cut {
            r.push((start, i));
            start = i + 1;
            proof {
                assert(pn == pp.push(Seq::empty()));
                assert(chars@.subrange(start as int, i + 1) =~= Seq::<char>::empty());
                assert forall|k: int| 0 <= k < r@.len() implies r@[k].0 <= r@[k].1 <= chars.len()
                    && chars@.subrange(r@[k].0 as int, r@[k].1 as int) == pn[k] by {
                    if k < old_r.len() {
                        assert(r@[k] == old_r[k]);
                        assert(pn[k] == pp[k]);
                    } else {
                        assert(pn[k] == pp.last());
                    }
                }
            }
        } else {
            proof {
                assert(pn == pp.update(pp.len() - 1, pp.last().push(chars@[i as int])));
                assert(chars@.subrange(start as int, i + 1) =~= chars@.subrange(
                    start as int,
                    i as int,
                ).push(chars@[i as int]));
                assert forall|k: int| 0 <= k < r@.len() implies r@[k].0 <= r@[k].1 <= chars.len()
                    && chars@.subrange(r@[k].0 as int, r@[k].1 as int) == pn[k] by {
                    assert(pn[k] == pp[k]);
                }
            }
        }
        i = i + 1;
        assert(next == chars@.subrange(0, i as int));
    }
    assert(chars@.subrange(0, i as int) =~= chars@);
    let ghost old_r = r@;
    r.push((start, i));
    proof {
        assert forall|k: int| 0 <= k < r@.len() implies r@[k].0 <= r@[k].1 <= chars.len()
            && chars@.subrange(r@[k].0 as int, r@[k].1 as int) == pieces(chars@, by)[k] by {
            if k < old_r.len() {
                assert(r@[k] == old_r[k]);
            }
        }
    }
    r
}

/// The token that one word of a line stands for.
pub fn tokenize_word(word: &str) -> (r: Result<Token, AsmError>)
    ensures
        match word_token(word@) {
            Ok(t) => r is Ok && r->Ok_0@ == t,
            Err(k) => r is Err && r->Err_0.model() == k && r->Err_0.detail@ == word@,
        },
{
    let chars = chars_of(word);
    let n = chars.len();
    let whole = String::from_str(word);
    let mut kind: Option<TokenType> = None;
    if n == 1 {
        assert(word@ =~= seq![chars[0]]);
        kind = match chars[0] {
            '↩' | '🏠' => Some(TokenType::Return),
            '⬆' => Some(TokenType::Add),
            '➖' => Some(TokenType::Subtract),
            '✖' => Some(TokenType::Multiply),
            '⬅' => Some(TokenType::Move),
            '❗' => Some(TokenType::Interrupt),
            '⚪' | '🔴' | '🔵' | '⚫' | '◀' | '⬇' => Some(TokenType::Register),
            '🦘' => Some(TokenType::Jump),
            '📞' => Some(TokenType::Call),
            '📥' => Some(TokenType::Push),
            '📤' => Some(TokenType::Pop),
            '⚖' => Some(TokenType::Compare),
            _ => None,
        };
    } else if n == 2 && chars[0] == '🦘' {
        assert(word@ =~= seq!['🦘', chars[1]]);
        kind = match chars[1] {
            '=' => Some(TokenType::JumpIfEqual),
            '≠' => Some(TokenType::JumpIfNotEqual),
            '<' => Some(TokenType::JumpIfLess),
            '≤' => Some(TokenType::JumpIfLessEqual),
            '>' => Some(TokenType::JumpIfGreater),
            '≥' => Some(TokenType::JumpIfGreaterEqual),
            _ => None,
        };
    }
    if let Some(t) = kind {
        return Ok(Token { t: Some(t), value: whole });
    }
    if n > 0 {
        let first = chars[0];
        let rest = word.substring_char(1, n);
        assert(rest@ =~= word@.drop_first());
        if first == '🖊' {
            return Ok(Token { t: Some(TokenType::Constant), value: String::from_str(rest) });
        }
        if first == '📪' && chars[n - 1] == ':' {
            let (a, b) = trim_range(&chars, 0, n, TrimSet::LabelMarks);
            assert(chars@.subrange(0, n as int) =~= word@);
            let name = word.substring_char(a, b);
            return Ok(Token { t: Some(TokenType::Label), value: String::from_str(name) });
        }
        if first == '📗' {
            return Ok(Token { t: Some(TokenType::Section), value: String::from_str(rest) });
        }
        if first == '✉' {
            return Ok(Token { t: Some(TokenType::LabelReference), value: String::from_str(rest) });
        }
        if first == '$' {
            if parse_u32(rest).is_some() {
                return Ok(Token { t: Some(TokenType::Value), value: String::from_str(rest) });
            } else {
                return Err(AsmError::new(ErrorKind::InvalidValue, whole));
            }
        }
    }
    if parse_u32(word).is_some() {
        Ok(Token { t: Some(TokenType::Memory), value: whole })
    } else {
        Ok(Token { t: Some(TokenType::ConstantReference), value: whole })
    }
}

/// The tokens of one source line. Words are separated by spaces and `~`,
/// commas and white space around them are dropped, and a word that starts
/// with `#` starts a comment.
pub fn tokenize(line: &str) -> (r: Result<Vec<Token>, AsmError>)
    ensures
        tokens_outcome(r, line_tokens(line@)),
{
    let chars = chars_of(line);
    let ranges = split_pieces(&chars, Split::Words);
    let ghost ps = pieces(chars@, Split::Words);
    let mut tokens: Vec<Token> = Vec::new();
    assert(ps.subrange(0, ps.len() as int) =~= ps);
    assert(tokens.deep_view() =~= Seq::<TokenModel>::empty());
    assert(match tokens_of_pieces(ps) {
        Ok(rest) => tokens_of_pieces(ps) == Ok::<Seq<TokenModel>, ErrorModel>(tokens.deep_view() + rest),
        Err(_) => true,
    }) by {
        if let Ok(rest) = tokens_of_pieces(ps) {
            assert(tokens.deep_view() + rest =~= rest);
        }
    }
    let mut k: usize = 0;
    while k < ranges.len()
        invariant
            0 <= k <= ranges.len(),
            chars@ == line@,
            ps == pieces(chars@, Split::Words),
            bounds_of_pieces(chars@, Split::Words, ranges@),
            tokens_of_pieces(ps) == match tokens_of_pieces(ps.subrange(k as int, ps.len() as int)) {
                Ok(rest) => Ok(tokens.deep_view() + rest),
                Err(e) => Err(e),
            },
        decreases ranges.len() - k,
    {
        let (lo, hi) = ranges[k];
        assert(chars@.subrange(lo as int, hi as int) == ps[k as int]);
        let ghost rest = ps.subrange(k as int, ps.len() as int);
        assert(rest[0] == ps[k as int]);
        assert(rest.drop_first() =~= ps.subrange(k + 1, ps.len() as int));
        let (a, b) = trim_range(&chars, lo, hi, TrimSet::Blank);
        if a == b {
            k = k + 1;
            continue;
        }
        if chars[a] == '#' {
            assert(tokens.deep_view() + Seq::<TokenModel>::empty() =~= tokens.deep_view());
            return Ok(tokens);
        }
        let word = line.substring_char(a, b);
        let t = match tokenize_word(word) {
            Ok(t) => t,
            Err(e) => return Err(e),
        };
        let ghost before = tokens.deep_view();
        tokens.push(t);
        proof {
            assert(tokens.deep_view() =~= before.push(t@));
            match tokens_of_pieces(ps.subrange(k + 1, ps.len() as int)) {
                Ok(more) => {
                    assert(before + (seq![t@] + more) =~= tokens.deep_view() + more);
                },
                Err(_) => {},
            }
        }
        k = k + 1;
    }
    assert(ps.subrange(k as int, ps.len() as int) =~= Seq::<Seq<char>>::empty());
    assert(tokens.deep_view() + Seq::<TokenModel>::empty() =~= tokens.deep_view());
    Ok(tokens)
}

} // verus!
