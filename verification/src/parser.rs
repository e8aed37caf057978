//! One line of assembler source parsed into a directive, a label, an
//! operation, or raw code bytes. Operands parse by prefix: `r` and digits
//! for a register, `%` for a direct, `:` for a label reference, a bare
//! number for an indirect. Errors carry the offending token for
//! highlighting.

use vstd::prelude::*;
use vstd::utf8::{decode_utf8, encode_utf8, valid_utf8};
use crate::lexer::{
    spec_tokens, token_range_wf, tokenize, LexerError, NumberBase, Term, Token, TokenResult,
};
use crate::strings::string_from_bytes;
use crate::types::{
    any_wf, op_wf, reg_dir_wf, reg_ind_wf, reg_wf, AnyParam, DirInd, Direct, Indirect, Op, RegDir,
    RegInd, Register,
};

verus! {

broadcast use vstd::std_specs::vec::group_vec_axioms, vstd::seq::group_seq_axioms;

/// What one source line means.
#[derive(Debug, PartialEq, Eq)]
pub enum ParsedLine {
    ChampionName(String),
    ChampionComment(String),
    Code(Vec<u8>),
    Op(Op),
    Label(String),
    LabelAndOp(String, Op),
    Empty,
}

#[derive(Debug, PartialEq, Eq)]
pub enum ParseError {
    /// A token remained after a complete line was parsed.
    RemainingInput(Token),
    LexerError(LexerError),
    /// The line opened with a token no line can start with.
    Unexpected(Token),
    ExpectedButGot(Term, Token),
    ExpectedButGotEof(Term),
    /// None of several operand shapes matched; one error per shape tried.
    ExpectedOneOf(Vec<ParseError>),
    /// A register index outside `1..=REG_COUNT`.
    InvalidRegisterCount(i64, Token),
    /// A register name that does not start with `r`.
    InvalidRegisterPrefix(char, Token),
    /// A numeric literal that does not fit a 64-bit signed integer.
    NumberOutOfRange(Token),
    InvalidOpMnemonic(String, Token),
}

pub type ParseResult<T> = Result<T, ParseError>;

/// The numeric value of one digit byte; bytes outside the digit ranges
/// count as zero.
pub open spec fn digit_val(b: u8) -> int {
    if 48 <= b <= 57 {
        b - 48
    } else if 97 <= b <= 102 {
        b - 87
    } else if 65 <= b <= 70 {
        b - 55
    } else {
        0
    }
}

/// The value of the digit run `s[i..k]` read most-significant first.
pub open spec fn digits_val(s: Seq<u8>, i: int, k: int, radix: int) -> int
    decreases k - i,
{
    if k <= i {
        0
    } else {
        digits_val(s, i, k - 1, radix) * radix + digit_val(s[k - 1])
    }
}

/// The magnitude of a number token body `s[d..end]`, honouring an `0x` or
/// `0d` base prefix.
pub open spec fn spec_magnitude(s: Seq<u8>, d: int, end: int) -> int {
    if d + 2 <= end && s[d] == 48 && s[d + 1] == 120 {
        digits_val(s, d + 2, end, 16)
    } else if d + 2 <= end && s[d] == 48 && s[d + 1] == 100 {
        digits_val(s, d + 2, end, 10)
    } else {
        digits_val(s, d, end, 10)
    }
}

/// The signed value of a whole number token `s[start..end]`.
pub open spec fn spec_number_value(s: Seq<u8>, start: int, end: int) -> int {
    if start < end && s[start] == 45 {
        -spec_magnitude(s, start + 1, end)
    } else {
        spec_magnitude(s, start, end)
    }
}

proof fn lemma_digits_val_nonneg(s: Seq<u8>, i: int, k: int, radix: int)
    requires
        radix >= 1,
    ensures
        digits_val(s, i, k, radix) >= 0,
    decreases k - i,
{
    if k > i {
        lemma_digits_val_nonneg(s, i, k - 1, radix);
        assert(digits_val(s, i, k - 1, radix) * radix >= 0) by (nonlinear_arith)
            requires
                digits_val(s, i, k - 1, radix) >= 0,
                radix >= 1,
        ;
    }
}

/// A longer digit run never denotes a smaller value.
proof fn lemma_digits_val_monotone(s: Seq<u8>, i: int, k: int, end: int, radix: int)
    requires
        radix >= 2,
        i <= k <= end,
    ensures
        digits_val(s, i, end, radix) >= digits_val(s, i, k, radix),
    decreases end - k,
{
    if k < end {
        lemma_digits_val_monotone(s, i, k + 1, end, radix);
        lemma_digits_val_nonneg(s, i, k, radix);
        assert(digits_val(s, i, k + 1, radix) == digits_val(s, i, k, radix) * radix + digit_val(
            s[k],
        ));
        assert(digits_val(s, i, k, radix) * radix >= digits_val(s, i, k, radix)) by (
        nonlinear_arith)
            requires
                digits_val(s, i, k, radix) >= 0,
                radix >= 2,
        ;
    }
}

/// Parses the digit run `bytes[i..end]` in the given radix; `None` exactly
/// when the value exceeds `i64::MAX`.
fn parse_digits(bytes: &[u8], i: usize, end: usize, radix: u64) -> (r: Option<i64>)
    requires
        i <= end <= bytes@.len(),
        radix == 10 || radix == 16,
    ensures
        r matches Some(v) ==> v as int == digits_val(bytes@, i as int, end as int, radix as int)
            && v >= 0,
        r is None ==> digits_val(bytes@, i as int, end as int, radix as int) > i64::MAX,
{
    let mut mag: u64 = 0;
    let mut k = i;
    while k < end
        invariant
            i <= k <= end <= bytes@.len(),
            radix == 10 || radix == 16,
            mag as int == digits_val(bytes@, i as int, k as int, radix as int),
            mag <= i64::MAX as u64,
        decreases end - k,
    {
        let b = bytes[k];
        let d: u64 = if 48 <= b && b <= 57 {
            (b - 48) as u64
        } else if 97 <= b && b <= 102 {
            (b - 87) as u64
        } else if 65 <= b && b <= 70 {
            (b - 55) as u64
        } else {
            0
        };
        proof {
            assert(d as int == digit_val(bytes@[k as int]));
        }
        if mag > (i64::MAX as u64 - d) / radix {
            proof {
                assert(digits_val(bytes@, i as int, k + 1, radix as int) == mag as int * radix
                    + d);
                assert(mag as int * radix + d > i64::MAX) by (nonlinear_arith)
                    requires
                        mag as int > (i64::MAX as int - d as int) / (radix as int),
                        radix == 10 || radix == 16,
                        0 <= d <= 15,
                ;
                lemma_digits_val_monotone(bytes@, i as int, k + 1, end as int, radix as int);
            }
            return None;
        }
        proof {
            assert(mag as int * radix + d <= i64::MAX) by (nonlinear_arith)
                requires
                    mag as int <= (i64::MAX as int - d as int) / (radix as int),
                    radix == 10 || radix == 16,
                    0 <= d <= 15,
            ;
        }
        mag = mag * radix + d;
        k = k + 1;
    }
    Some(mag as i64)
}

/// Parses a whole number token `bytes[start..end]`: optional minus sign,
/// optional base prefix, digit run. `None` exactly when the value does not
/// fit `i64`.
fn parse_i64(bytes: &[u8], start: usize, end: usize) -> (r: Option<i64>)
    requires
        start <= end <= bytes@.len(),
    ensures
        r matches Some(v) ==> v as int == spec_number_value(bytes@, start as int, end as int)
            && in_i64_range(spec_number_value(bytes@, start as int, end as int)),
        r is None ==> !in_i64_range(spec_number_value(bytes@, start as int, end as int)),
{
    let (neg, d) = if start < end && bytes[start] == 45 {
        (true, start + 1)
    } else {
        (false, start)
    };
    let mag = if end - d >= 2 && bytes[d] == 48 && bytes[d + 1] == 120 {
        parse_digits(bytes, d + 2, end, 16)
    } else if end - d >= 2 && bytes[d] == 48 && bytes[d + 1] == 100 {
        parse_digits(bytes, d + 2, end, 10)
    } else {
        parse_digits(bytes, d, end, 10)
    };
    match mag {
        None => None,
        Some(v) => if neg {
            Some(-v)
        } else {
            Some(v)
        },
    }
}

/// Whether a value fits the 64-bit signed parser accumulator.
pub open spec fn in_i64_range(x: int) -> bool {
    -(i64::MAX as int) <= x <= i64::MAX as int
}

/// The text of a token pins a string only as far as the trusted UTF-8
/// decoding does: on a valid-UTF-8 range the string is its decoding.
pub open spec fn is_text(v: Seq<char>, bytes: Seq<u8>, a: int, b: int) -> bool {
    valid_utf8(bytes.subrange(a, b)) ==> v == decode_utf8(bytes.subrange(a, b))
}

/// Taking the token at `i`, which must be a `term`, succeeds with `t`.
pub open spec fn tok_ok(toks: Seq<TokenResult>, i: int, term: Term, t: Token, j: int) -> bool {
    &&& 0 <= i < toks.len()
    &&& toks[i] == Ok::<Token, LexerError>(t)
    &&& t.term == term
    &&& j == i + 1
}

/// Taking the token at `i` as a `term` fails with exactly `e`.
pub open spec fn tok_err(toks: Seq<TokenResult>, i: int, term: Term, e: ParseError) -> bool {
    if i >= toks.len() {
        e == ParseError::ExpectedButGotEof(term)
    } else {
        match toks[i] {
            Err(le) => e == ParseError::LexerError(le),
            Ok(t) => t.term != term && e == ParseError::ExpectedButGot(term, t),
        }
    }
}

/// A number token parses from `i` to the value its digits denote.
pub open spec fn number_ok(toks: Seq<TokenResult>, bytes: Seq<u8>, i: int, v: i64, j: int) -> bool {
    &&& 0 <= i < toks.len()
    &&& toks[i] is Ok
    &&& toks[i]->Ok_0.term is Number
    &&& in_i64_range(spec_number_value(bytes, toks[i]->Ok_0.start as int, toks[i]->Ok_0.end as int))
    &&& v as int == spec_number_value(bytes, toks[i]->Ok_0.start as int, toks[i]->Ok_0.end as int)
    &&& j == i + 1
}

pub open spec fn number_err(toks: Seq<TokenResult>, bytes: Seq<u8>, i: int, e: ParseError) -> bool {
    if i >= toks.len() {
        e == ParseError::ExpectedButGotEof(Term::Number { base: NumberBase::Decimal })
    } else {
        match toks[i] {
            Err(le) => e == ParseError::LexerError(le),
            Ok(t) => if !(t.term is Number) {
                e == ParseError::ExpectedButGot(Term::Number { base: NumberBase::Decimal }, t)
            } else {
                &&& !in_i64_range(spec_number_value(bytes, t.start as int, t.end as int))
                &&& e == ParseError::NumberOutOfRange(t)
            },
        }
    }
}

/// The digit run of a register token `r<digits>`.
pub open spec fn reg_digits(bytes: Seq<u8>, t: Token) -> int {
    digits_val(bytes, t.start + 1, t.end as int, 10)
}

/// A register token parses from `i` to register `r`.
pub open spec fn register_ok(toks: Seq<TokenResult>, bytes: Seq<u8>, i: int, r: Register, j: int) -> bool {
    &&& 0 <= i < toks.len()
    &&& toks[i] is Ok
    &&& {
        let t = toks[i]->Ok_0;
        &&& t.term is Ident
        &&& t.start < t.end <= bytes.len()
        &&& bytes[t.start as int] == 114
        &&& t.start + 1 < t.end
        &&& reg_digits(bytes, t) <= i64::MAX
        &&& 1 <= reg_digits(bytes, t) <= 16
        &&& r.0 as int == reg_digits(bytes, t)
    }
    &&& j == i + 1
}

/// Whether a register token can parse at `i`.
pub open spec fn register_can(toks: Seq<TokenResult>, bytes: Seq<u8>, i: int) -> bool {
    exists|r: Register, j: int| register_ok(toks, bytes, i, r, j)
}

pub open spec fn register_err(toks: Seq<TokenResult>, bytes: Seq<u8>, i: int, e: ParseError) -> bool {
    if i >= toks.len() {
        e == ParseError::ExpectedButGotEof(Term::Ident)
    } else {
        match toks[i] {
            Err(le) => e == ParseError::LexerError(le),
            Ok(t) => if !(t.term is Ident) {
                e == ParseError::ExpectedButGot(Term::Ident, t)
            } else if !(t.start < t.end <= bytes.len()) {
                e == ParseError::InvalidRegisterPrefix(' ', t)
            } else if bytes[t.start as int] != 114 {
                e == ParseError::InvalidRegisterPrefix(bytes[t.start as int] as char, t)
            } else if reg_digits(bytes, t) > i64::MAX || t.start + 1 == t.end {
                e == ParseError::NumberOutOfRange(t)
            } else {
                &&& !(1 <= reg_digits(bytes, t) <= 16)
                &&& (e matches ParseError::InvalidRegisterCount(v, t2) && v as int == reg_digits(
                    bytes,
                    t,
                ) && t2 == t)
            },
        }
    }
}

/// A label definition token (`name:`) parses to the name before the colon.
pub open spec fn label_ok(toks: Seq<TokenResult>, bytes: Seq<u8>, i: int, s: Seq<char>, j: int) -> bool {
    &&& 0 <= i < toks.len()
    &&& toks[i] is Ok
    &&& {
        let t = toks[i]->Ok_0;
        &&& t.term is LabelDef
        &&& t.start <= t.end <= bytes.len()
        &&& is_text(s, bytes, t.start as int, if t.start < t.end {
            t.end - 1
        } else {
            t.end as int
        })
    }
    &&& j == i + 1
}

/// A label reference token (`:name`) parses to the name after the colon.
pub open spec fn label_param_ok(toks: Seq<TokenResult>, bytes: Seq<u8>, i: int, s: Seq<char>, j: int) -> bool {
    &&& 0 <= i < toks.len()
    &&& toks[i] is Ok
    &&& {
        let t = toks[i]->Ok_0;
        &&& t.term is LabelUse
        &&& t.start <= t.end <= bytes.len()
        &&& is_text(s, bytes, if t.start < t.end {
            t.start + 1
        } else {
            t.start as int
        }, t.end as int)
    }
    &&& j == i + 1
}

/// Whether a label reference can parse at `i`.
pub open spec fn label_param_can(toks: Seq<TokenResult>, bytes: Seq<u8>, i: int) -> bool {
    &&& 0 <= i < toks.len()
    &&& toks[i] is Ok
    &&& toks[i]->Ok_0.term is LabelUse
    &&& toks[i]->Ok_0.start <= toks[i]->Ok_0.end <= bytes.len()
}

/// A `%` token sits at `i`.
pub open spec fn dchar_at(toks: Seq<TokenResult>, i: int) -> bool {
    &&& 0 <= i < toks.len()
    &&& toks[i] is Ok
    &&& toks[i]->Ok_0.term is DirectChar
}

/// How many tokens a direct-or-indirect operand starting at `i` occupies:
/// a `%`-introduced direct takes two, a bare indirect one.
pub open spec fn di_len_at(toks: Seq<TokenResult>, i: int) -> int {
    if dchar_at(toks, i) {
        2
    } else {
        1
    }
}

/// How many tokens a register-or-direct operand at `i` occupies.
pub open spec fn rd_len_at(toks: Seq<TokenResult>, bytes: Seq<u8>, i: int) -> int {
    if register_can(toks, bytes, i) {
        1
    } else if dchar_at(toks, i) {
        2
    } else {
        1
    }
}

/// How many tokens an any-shape operand at `i` occupies.
pub open spec fn any_len_at(toks: Seq<TokenResult>, bytes: Seq<u8>, i: int) -> int {
    if register_can(toks, bytes, i) {
        1
    } else if dchar_at(toks, i) {
        2
    } else {
        1
    }
}

/// A `.name`/`.comment` directive followed by a quoted string whose
/// content is the directive's text.
pub open spec fn quoted_directive_ok(
    toks: Seq<TokenResult>,
    bytes: Seq<u8>,
    i: int,
    term: Term,
    s: Seq<char>,
    j: int,
) -> bool {
    &&& 0 <= i && i + 1 < toks.len()
    &&& toks[i] is Ok
    &&& toks[i]->Ok_0.term == term
    &&& toks[i + 1] is Ok
    &&& {
        let t2 = toks[i + 1]->Ok_0;
        &&& t2.term is QuotedString
        &&& t2.start <= t2.end <= bytes.len()
        &&& is_text(s, bytes, t2.start as int, t2.end as int)
    }
    &&& j == i + 2
}

/// The bytes a run of number tokens from `i` denotes, each truncated to a
/// byte, ending just before the first token that is not an in-range number.
pub open spec fn code_run(toks: Seq<TokenResult>, bytes: Seq<u8>, i: int, v: Seq<u8>, j: int) -> bool
    decreases toks.len() - i,
    when 0 <= i
{
    if 0 <= i < toks.len() && toks[i] is Ok && toks[i]->Ok_0.term is Number {
        if in_i64_range(
            spec_number_value(bytes, toks[i]->Ok_0.start as int, toks[i]->Ok_0.end as int),
        ) {
            &&& v.len() >= 1
            &&& v[0] == ((spec_number_value(
                bytes,
                toks[i]->Ok_0.start as int,
                toks[i]->Ok_0.end as int,
            ) as i64) as u8)
            &&& code_run(toks, bytes, i + 1, v.drop_first(), j)
        } else {
            false
        }
    } else {
        v.len() == 0 && j == i
    }
}

/// How a `.code` byte run fails: the first out-of-range number.
pub open spec fn code_err(toks: Seq<TokenResult>, bytes: Seq<u8>, i: int, e: ParseError) -> bool
    decreases toks.len() - i,
    when 0 <= i
{
    if 0 <= i < toks.len() && toks[i] is Ok && toks[i]->Ok_0.term is Number {
        if in_i64_range(
            spec_number_value(bytes, toks[i]->Ok_0.start as int, toks[i]->Ok_0.end as int),
        ) {
            code_err(toks, bytes, i + 1, e)
        } else {
            e == ParseError::NumberOutOfRange(toks[i]->Ok_0)
        }
    } else {
        false
    }
}

/// After a complete line, only a comment or the end may remain.
pub open spec fn rest_ok(toks: Seq<TokenResult>, j: int) -> bool {
    j >= toks.len() || (toks[j] is Ok && toks[j]->Ok_0.term is Comment)
}

/// Something besides a comment remained after a complete line.
pub open spec fn rest_err(toks: Seq<TokenResult>, j: int, e: ParseError) -> bool {
    &&& 0 <= j < toks.len()
    &&& match toks[j] {
        Ok(t) => !(t.term is Comment) && e == ParseError::RemainingInput(t),
        Err(le) => e == ParseError::LexerError(le),
    }
}

/// What one line parses to, over its token list: the empty and comment
/// lines, each directive shape, labels, operations, and every error, all
/// pinned to the exact result.
#[verifier::opaque]
pub open spec fn parse_line_rel(
    toks: Seq<TokenResult>,
    bytes: Seq<u8>,
    r: Result<ParsedLine, ParseError>,
) -> bool {
    if toks.len() == 0 {
        r == Ok::<ParsedLine, ParseError>(ParsedLine::Empty)
    } else {
        match toks[0] {
            Err(le) => r == Err::<ParsedLine, ParseError>(ParseError::LexerError(le)),
            Ok(t0) => match t0.term {
                Term::Comment => r == Ok::<ParsedLine, ParseError>(ParsedLine::Empty),
                Term::ChampionNameCmd => match r {
                    Ok(ParsedLine::ChampionName(s)) => quoted_directive_ok(
                        toks,
                        bytes,
                        0,
                        Term::ChampionNameCmd,
                        s@,
                        2,
                    ) && rest_ok(toks, 2),
                    Err(e) => directive_err(toks, 0, Term::ChampionNameCmd, e) || (
                    exists|s: Seq<char>|
                        #[trigger] quoted_directive_ok(toks, bytes, 0, Term::ChampionNameCmd, s, 2)
                            && rest_err(toks, 2, e)),
                    _ => false,
                },
                Term::ChampionCommentCmd => match r {
                    Ok(ParsedLine::ChampionComment(s)) => quoted_directive_ok(
                        toks,
                        bytes,
                        0,
                        Term::ChampionCommentCmd,
                        s@,
                        2,
                    ) && rest_ok(toks, 2),
                    Err(e) => directive_err(toks, 0, Term::ChampionCommentCmd, e) || (
                    exists|s: Seq<char>|
                        #[trigger] quoted_directive_ok(
                            toks,
                            bytes,
                            0,
                            Term::ChampionCommentCmd,
                            s,
                            2,
                        ) && rest_err(toks, 2, e)),
                    _ => false,
                },
                Term::CodeCmd => match r {
                    Ok(ParsedLine::Code(v)) => exists|j: int|
                        #[trigger] code_run(toks, bytes, 1, v@, j) && rest_ok(toks, j),
                    Err(e) => code_err(toks, bytes, 1, e) || (exists|v: Seq<u8>, j: int|
                        #[trigger] code_run(toks, bytes, 1, v, j) && rest_err(toks, j, e)),
                    _ => false,
                },
                Term::LabelDef => {
                    let only_label = 1 >= toks.len() || (toks[1] is Ok
                        && toks[1]->Ok_0.term is Comment);
                    match r {
                        Ok(ParsedLine::Label(l)) => label_ok(toks, bytes, 0, l@, 1) && only_label,
                        Ok(ParsedLine::LabelAndOp(l, o)) => label_ok(toks, bytes, 0, l@, 1)
                            && !only_label && exists|j: int|
                            #[trigger] op_ok(toks, bytes, 1, o, j) && rest_ok(toks, j),
                        Err(e) => !only_label && (op_err(toks, bytes, 1, e) || exists|o: Op, j: int|
                            #[trigger] op_ok(toks, bytes, 1, o, j) && rest_err(toks, j, e)),
                        _ => false,
                    }
                },
                Term::Ident => match r {
                    Ok(ParsedLine::Op(o)) => exists|j: int|
                        #[trigger] op_ok(toks, bytes, 0, o, j) && rest_ok(toks, j),
                    Err(e) => op_err(toks, bytes, 0, e) || (exists|o: Op, j: int|
                        #[trigger] op_ok(toks, bytes, 0, o, j) && rest_err(toks, j, e)),
                    _ => false,
                },
                _ => r == Err::<ParsedLine, ParseError>(ParseError::Unexpected(t0)),
            },
        }
    }
}

/// A `.name`/`.comment` directive line fails: either the directive token
/// itself is wrong, or the quoted string after it is.
pub open spec fn directive_err(toks: Seq<TokenResult>, i: int, term: Term, e: ParseError) -> bool {
    if !(0 <= i < toks.len() && toks[i] is Ok && toks[i]->Ok_0.term == term) {
        tok_err(toks, i, term, e)
    } else {
        tok_err(toks, i + 1, Term::QuotedString, e)
    }
}

/// A parameter separator sits at `i`.
pub open spec fn sep_ok(toks: Seq<TokenResult>, i: int) -> bool {
    &&& 0 <= i < toks.len()
    &&& toks[i] is Ok
    &&& toks[i]->Ok_0.term is ParamSeparator
}

/// A `%`-introduced direct operand: a label reference, or - when none is
/// there - a number.
pub open spec fn direct_ok(toks: Seq<TokenResult>, bytes: Seq<u8>, i: int, d: Direct, j: int) -> bool {
    &&& 0 <= i < toks.len()
    &&& toks[i] is Ok
    &&& toks[i]->Ok_0.term is DirectChar
    &&& match d {
        Direct::Label(l) => label_param_ok(toks, bytes, i + 1, l@, j),
        Direct::Numeric(n) => !label_param_can(toks, bytes, i + 1) && number_ok(
            toks,
            bytes,
            i + 1,
            n,
            j,
        ),
    }
}

pub open spec fn direct_can(toks: Seq<TokenResult>, bytes: Seq<u8>, i: int) -> bool {
    exists|d: Direct, j: int| direct_ok(toks, bytes, i, d, j)
}

pub open spec fn direct_err(toks: Seq<TokenResult>, bytes: Seq<u8>, i: int, e: ParseError) -> bool {
    if !(0 <= i < toks.len() && toks[i] is Ok && toks[i]->Ok_0.term is DirectChar) {
        tok_err(toks, i, Term::DirectChar, e)
    } else {
        &&& !label_param_can(toks, bytes, i + 1)
        &&& (e matches ParseError::ExpectedOneOf(subs) && subs@.len() == 2 && tok_err(
            toks,
            i + 1,
            Term::LabelUse,
            subs@[0],
        ) && number_err(toks, bytes, i + 1, subs@[1]))
    }
}

/// A bare indirect operand: a label reference, else a number.
pub open spec fn indirect_ok(toks: Seq<TokenResult>, bytes: Seq<u8>, i: int, d: Indirect, j: int) -> bool {
    match d {
        Indirect::Label(l) => label_param_ok(toks, bytes, i, l@, j),
        Indirect::Numeric(n) => !label_param_can(toks, bytes, i) && number_ok(toks, bytes, i, n, j),
    }
}

pub open spec fn indirect_can(toks: Seq<TokenResult>, bytes: Seq<u8>, i: int) -> bool {
    exists|d: Indirect, j: int| indirect_ok(toks, bytes, i, d, j)
}

pub open spec fn indirect_err(toks: Seq<TokenResult>, bytes: Seq<u8>, i: int, e: ParseError) -> bool {
    &&& !label_param_can(toks, bytes, i)
    &&& (e matches ParseError::ExpectedOneOf(subs) && subs@.len() == 2 && tok_err(
        toks,
        i,
        Term::LabelUse,
        subs@[0],
    ) && number_err(toks, bytes, i, subs@[1]))
}

/// A register-or-direct operand, trying the register first.
pub open spec fn rd_op_ok(toks: Seq<TokenResult>, bytes: Seq<u8>, i: int, p: RegDir, j: int) -> bool {
    match p {
        RegDir::Reg(r) => register_ok(toks, bytes, i, r, j),
        RegDir::Dir(d) => !register_can(toks, bytes, i) && direct_ok(toks, bytes, i, d, j),
    }
}

pub open spec fn rd_op_can(toks: Seq<TokenResult>, bytes: Seq<u8>, i: int) -> bool {
    exists|p: RegDir, j: int| rd_op_ok(toks, bytes, i, p, j)
}

pub open spec fn rd_op_err(toks: Seq<TokenResult>, bytes: Seq<u8>, i: int, e: ParseError) -> bool {
    &&& !register_can(toks, bytes, i)
    &&& !direct_can(toks, bytes, i)
    &&& (e matches ParseError::ExpectedOneOf(subs) && subs@.len() == 2 && register_err(
        toks,
        bytes,
        i,
        subs@[0],
    ) && direct_err(toks, bytes, i, subs@[1]))
}

/// A register-or-indirect operand, trying the register first.
pub open spec fn ri_op_ok(toks: Seq<TokenResult>, bytes: Seq<u8>, i: int, p: RegInd, j: int) -> bool {
    match p {
        RegInd::Reg(r) => register_ok(toks, bytes, i, r, j),
        RegInd::Ind(d) => !register_can(toks, bytes, i) && indirect_ok(toks, bytes, i, d, j),
    }
}

pub open spec fn ri_op_can(toks: Seq<TokenResult>, bytes: Seq<u8>, i: int) -> bool {
    exists|p: RegInd, j: int| ri_op_ok(toks, bytes, i, p, j)
}

pub open spec fn ri_op_err(toks: Seq<TokenResult>, bytes: Seq<u8>, i: int, e: ParseError) -> bool {
    &&& !register_can(toks, bytes, i)
    &&& !indirect_can(toks, bytes, i)
    &&& (e matches ParseError::ExpectedOneOf(subs) && subs@.len() == 2 && register_err(
        toks,
        bytes,
        i,
        subs@[0],
    ) && indirect_err(toks, bytes, i, subs@[1]))
}

/// A direct-or-indirect operand, trying the direct first.
pub open spec fn di_op_ok(toks: Seq<TokenResult>, bytes: Seq<u8>, i: int, p: DirInd, j: int) -> bool {
    match p {
        DirInd::Dir(d) => direct_ok(toks, bytes, i, d, j),
        DirInd::Ind(d) => !direct_can(toks, bytes, i) && indirect_ok(toks, bytes, i, d, j),
    }
}

pub open spec fn di_op_can(toks: Seq<TokenResult>, bytes: Seq<u8>, i: int) -> bool {
    exists|p: DirInd, j: int| di_op_ok(toks, bytes, i, p, j)
}

pub open spec fn di_op_err(toks: Seq<TokenResult>, bytes: Seq<u8>, i: int, e: ParseError) -> bool {
    &&& !direct_can(toks, bytes, i)
    &&& !indirect_can(toks, bytes, i)
    &&& (e matches ParseError::ExpectedOneOf(subs) && subs@.len() == 2 && direct_err(
        toks,
        bytes,
        i,
        subs@[0],
    ) && indirect_err(toks, bytes, i, subs@[1]))
}

/// An operand of any shape: register, else direct, else indirect.
pub open spec fn any_op_ok(toks: Seq<TokenResult>, bytes: Seq<u8>, i: int, p: AnyParam, j: int) -> bool {
    match p {
        AnyParam::Reg(r) => register_ok(toks, bytes, i, r, j),
        AnyParam::Dir(d) => !register_can(toks, bytes, i) && direct_ok(toks, bytes, i, d, j),
        AnyParam::Ind(d) => !register_can(toks, bytes, i) && !direct_can(toks, bytes, i)
            && indirect_ok(toks, bytes, i, d, j),
    }
}

pub open spec fn any_op_can(toks: Seq<TokenResult>, bytes: Seq<u8>, i: int) -> bool {
    exists|p: AnyParam, j: int| any_op_ok(toks, bytes, i, p, j)
}

pub open spec fn any_op_err(toks: Seq<TokenResult>, bytes: Seq<u8>, i: int, e: ParseError) -> bool {
    &&& !register_can(toks, bytes, i)
    &&& !direct_can(toks, bytes, i)
    &&& !indirect_can(toks, bytes, i)
    &&& (e matches ParseError::ExpectedOneOf(subs) && subs@.len() == 3 && register_err(
        toks,
        bytes,
        i,
        subs@[0],
    ) && direct_err(toks, bytes, i, subs@[1]) && indirect_err(toks, bytes, i, subs@[2]))
}

/// The token's text is exactly the given byte string.
pub open spec fn mnem(bytes: Seq<u8>, t: Token, lit: Seq<u8>) -> bool {
    &&& t.start <= t.end <= bytes.len()
    &&& bytes.subrange(t.start as int, t.end as int) == lit
}

pub open spec fn m_live() -> Seq<u8> {
    seq![108u8, 105u8, 118u8, 101u8]
}

pub open spec fn m_ld() -> Seq<u8> {
    seq![108u8, 100u8]
}

pub open spec fn m_st() -> Seq<u8> {
    seq![115u8, 116u8]
}

pub open spec fn m_add() -> Seq<u8> {
    seq![97u8, 100u8, 100u8]
}

pub open spec fn m_sub() -> Seq<u8> {
    seq![115u8, 117u8, 98u8]
}

pub open spec fn m_and() -> Seq<u8> {
    seq![97u8, 110u8, 100u8]
}

pub open spec fn m_or() -> Seq<u8> {
    seq![111u8, 114u8]
}

pub open spec fn m_xor() -> Seq<u8> {
    seq![120u8, 111u8, 114u8]
}

pub open spec fn m_zjmp() -> Seq<u8> {
    seq![122u8, 106u8, 109u8, 112u8]
}

pub open spec fn m_ldi() -> Seq<u8> {
    seq![108u8, 100u8, 105u8]
}

pub open spec fn m_sti() -> Seq<u8> {
    seq![115u8, 116u8, 105u8]
}

pub open spec fn m_fork() -> Seq<u8> {
    seq![102u8, 111u8, 114u8, 107u8]
}

pub open spec fn m_lld() -> Seq<u8> {
    seq![108u8, 108u8, 100u8]
}

pub open spec fn m_lldi() -> Seq<u8> {
    seq![108u8, 108u8, 100u8, 105u8]
}

pub open spec fn m_lfork() -> Seq<u8> {
    seq![108u8, 102u8, 111u8, 114u8, 107u8]
}

pub open spec fn m_aff() -> Seq<u8> {
    seq![97u8, 102u8, 102u8]
}

/// The operation an identifier token followed by comma-separated operands
/// denotes, parsing from `i` to `j`.
pub open spec fn op_ok(toks: Seq<TokenResult>, bytes: Seq<u8>, i: int, o: Op, j: int) -> bool {
    &&& 0 <= i < toks.len()
    &&& toks[i] is Ok
    &&& toks[i]->Ok_0.term is Ident
    &&& {
        let t = toks[i]->Ok_0;
        match o {
            Op::Live(d) => mnem(bytes, t, m_live()) && direct_ok(toks, bytes, i + 1, d, j),
            Op::Zjmp(d) => mnem(bytes, t, m_zjmp()) && direct_ok(toks, bytes, i + 1, d, j),
            Op::Fork(d) => mnem(bytes, t, m_fork()) && direct_ok(toks, bytes, i + 1, d, j),
            Op::Lfork(d) => mnem(bytes, t, m_lfork()) && direct_ok(toks, bytes, i + 1, d, j),
            Op::Aff(r) => mnem(bytes, t, m_aff()) && register_ok(toks, bytes, i + 1, r, j),
            Op::Ld(di, r) => {
                let j1 = i + 1 + di_len_at(toks, i + 1);
                mnem(bytes, t, m_ld()) && di_op_ok(toks, bytes, i + 1, di, j1) && sep_ok(toks, j1)
                    && register_ok(toks, bytes, j1 + 1, r, j)
            },
            Op::Lld(di, r) => {
                let j1 = i + 1 + di_len_at(toks, i + 1);
                mnem(bytes, t, m_lld()) && di_op_ok(toks, bytes, i + 1, di, j1) && sep_ok(toks, j1)
                    && register_ok(toks, bytes, j1 + 1, r, j)
            },
            Op::St(r, ri) => {
                let j1 = i + 2;
                mnem(bytes, t, m_st()) && register_ok(toks, bytes, i + 1, r, j1) && sep_ok(
                    toks,
                    j1,
                ) && ri_op_ok(toks, bytes, j1 + 1, ri, j)
            },
            Op::Add(a, b, c) => mnem(bytes, t, m_add()) && register_ok(toks, bytes, i + 1, a, i + 2)
                && sep_ok(toks, i + 2) && register_ok(toks, bytes, i + 3, b, i + 4) && sep_ok(
                toks,
                i + 4,
            ) && register_ok(toks, bytes, i + 5, c, j),
            Op::Sub(a, b, c) => mnem(bytes, t, m_sub()) && register_ok(toks, bytes, i + 1, a, i + 2)
                && sep_ok(toks, i + 2) && register_ok(toks, bytes, i + 3, b, i + 4) && sep_ok(
                toks,
                i + 4,
            ) && register_ok(toks, bytes, i + 5, c, j),
            Op::And(a, b, c) => {
                let j1 = i + 1 + any_len_at(toks, bytes, i + 1);
                let j2 = j1 + 1 + any_len_at(toks, bytes, j1 + 1);
                mnem(bytes, t, m_and()) && any_op_ok(toks, bytes, i + 1, a, j1) && sep_ok(toks, j1)
                    && any_op_ok(toks, bytes, j1 + 1, b, j2) && sep_ok(toks, j2) && register_ok(
                    toks,
                    bytes,
                    j2 + 1,
                    c,
                    j,
                )
            },
            Op::Or(a, b, c) => {
                let j1 = i + 1 + any_len_at(toks, bytes, i + 1);
                let j2 = j1 + 1 + any_len_at(toks, bytes, j1 + 1);
                mnem(bytes, t, m_or()) && any_op_ok(toks, bytes, i + 1, a, j1) && sep_ok(toks, j1)
                    && any_op_ok(toks, bytes, j1 + 1, b, j2) && sep_ok(toks, j2) && register_ok(
                    toks,
                    bytes,
                    j2 + 1,
                    c,
                    j,
                )
            },
            Op::Xor(a, b, c) => {
                let j1 = i + 1 + any_len_at(toks, bytes, i + 1);
                let j2 = j1 + 1 + any_len_at(toks, bytes, j1 + 1);
                mnem(bytes, t, m_xor()) && any_op_ok(toks, bytes, i + 1, a, j1) && sep_ok(toks, j1)
                    && any_op_ok(toks, bytes, j1 + 1, b, j2) && sep_ok(toks, j2) && register_ok(
                    toks,
                    bytes,
                    j2 + 1,
                    c,
                    j,
                )
            },
            Op::Ldi(a, rd, c) => {
                let j1 = i + 1 + any_len_at(toks, bytes, i + 1);
                let j2 = j1 + 1 + rd_len_at(toks, bytes, j1 + 1);
                mnem(bytes, t, m_ldi()) && any_op_ok(toks, bytes, i + 1, a, j1) && sep_ok(toks, j1)
                    && rd_op_ok(toks, bytes, j1 + 1, rd, j2) && sep_ok(toks, j2) && register_ok(
                    toks,
                    bytes,
                    j2 + 1,
                    c,
                    j,
                )
            },
            Op::Lldi(a, rd, c) => {
                let j1 = i + 1 + any_len_at(toks, bytes, i + 1);
                let j2 = j1 + 1 + rd_len_at(toks, bytes, j1 + 1);
                mnem(bytes, t, m_lldi()) && any_op_ok(toks, bytes, i + 1, a, j1) && sep_ok(toks, j1)
                    && rd_op_ok(toks, bytes, j1 + 1, rd, j2) && sep_ok(toks, j2) && register_ok(
                    toks,
                    bytes,
                    j2 + 1,
                    c,
                    j,
                )
            },
            Op::Sti(r, a, rd) => {
                let j1 = i + 2;
                let j2 = j1 + 1 + any_len_at(toks, bytes, j1 + 1);
                mnem(bytes, t, m_sti()) && register_ok(toks, bytes, i + 1, r, j1) && sep_ok(
                    toks,
                    j1,
                ) && any_op_ok(toks, bytes, j1 + 1, a, j2) && sep_ok(toks, j2) && rd_op_ok(
                    toks,
                    bytes,
                    j2 + 1,
                    rd,
                    j,
                )
            },
        }
    }
}

/// Failing to parse the second of two comma-separated operands.
pub open spec fn sep_reg_err(toks: Seq<TokenResult>, bytes: Seq<u8>, j1: int, e: ParseError) -> bool {
    if !sep_ok(toks, j1) {
        tok_err(toks, j1, Term::ParamSeparator, e)
    } else {
        register_err(toks, bytes, j1 + 1, e)
    }
}

pub open spec fn sep_ri_err(toks: Seq<TokenResult>, bytes: Seq<u8>, j1: int, e: ParseError) -> bool {
    if !sep_ok(toks, j1) {
        tok_err(toks, j1, Term::ParamSeparator, e)
    } else {
        ri_op_err(toks, bytes, j1 + 1, e)
    }
}

/// Failing somewhere in `<register> , <register>` after the first operand.
pub open spec fn sep_reg_sep_reg_err(toks: Seq<TokenResult>, bytes: Seq<u8>, j1: int, e: ParseError) -> bool {
    if !sep_ok(toks, j1) {
        tok_err(toks, j1, Term::ParamSeparator, e)
    } else if !register_can(toks, bytes, j1 + 1) {
        register_err(toks, bytes, j1 + 1, e)
    } else {
        sep_reg_err(toks, bytes, j1 + 2, e)
    }
}

/// Failing somewhere in `<any> , <register>` after the first operand.
pub open spec fn sep_any_reg_err(toks: Seq<TokenResult>, bytes: Seq<u8>, j1: int, e: ParseError) -> bool {
    if !sep_ok(toks, j1) {
        tok_err(toks, j1, Term::ParamSeparator, e)
    } else if !any_op_can(toks, bytes, j1 + 1) {
        any_op_err(toks, bytes, j1 + 1, e)
    } else {
        sep_reg_err(toks, bytes, j1 + 1 + any_len_at(toks, bytes, j1 + 1), e)
    }
}

/// Failing somewhere in `<reg-or-dir> , <register>` after the first operand.
pub open spec fn sep_rd_reg_err(toks: Seq<TokenResult>, bytes: Seq<u8>, j1: int, e: ParseError) -> bool {
    if !sep_ok(toks, j1) {
        tok_err(toks, j1, Term::ParamSeparator, e)
    } else if !rd_op_can(toks, bytes, j1 + 1) {
        rd_op_err(toks, bytes, j1 + 1, e)
    } else {
        sep_reg_err(toks, bytes, j1 + 1 + rd_len_at(toks, bytes, j1 + 1), e)
    }
}

/// Failing somewhere in `<any> , <reg-or-dir>` after the first operand.
pub open spec fn sep_any_rd_err(toks: Seq<TokenResult>, bytes: Seq<u8>, j1: int, e: ParseError) -> bool {
    if !sep_ok(toks, j1) {
        tok_err(toks, j1, Term::ParamSeparator, e)
    } else if !any_op_can(toks, bytes, j1 + 1) {
        any_op_err(toks, bytes, j1 + 1, e)
    } else {
        let j2 = j1 + 1 + any_len_at(toks, bytes, j1 + 1);
        if !sep_ok(toks, j2) {
            tok_err(toks, j2, Term::ParamSeparator, e)
        } else {
            rd_op_err(toks, bytes, j2 + 1, e)
        }
    }
}

/// How parsing an operation from `i` fails with exactly `e`: a missing
/// mnemonic, an unknown one, or the first operand or separator that does
/// not fit the mnemonic's shape.
pub open spec fn op_err(toks: Seq<TokenResult>, bytes: Seq<u8>, i: int, e: ParseError) -> bool {
    if !(0 <= i < toks.len() && toks[i] is Ok && toks[i]->Ok_0.term is Ident) {
        tok_err(toks, i, Term::Ident, e)
    } else {
        let t = toks[i]->Ok_0;
        if mnem(bytes, t, m_live()) || mnem(bytes, t, m_zjmp()) || mnem(bytes, t, m_fork())
            || mnem(bytes, t, m_lfork()) {
            direct_err(toks, bytes, i + 1, e)
        } else if mnem(bytes, t, m_aff()) {
            register_err(toks, bytes, i + 1, e)
        } else if mnem(bytes, t, m_ld()) || mnem(bytes, t, m_lld()) {
            if !di_op_can(toks, bytes, i + 1) {
                di_op_err(toks, bytes, i + 1, e)
            } else {
                sep_reg_err(toks, bytes, i + 1 + di_len_at(toks, i + 1), e)
            }
        } else if mnem(bytes, t, m_st()) {
            if !register_can(toks, bytes, i + 1) {
                register_err(toks, bytes, i + 1, e)
            } else {
                sep_ri_err(toks, bytes, i + 2, e)
            }
        } else if mnem(bytes, t, m_add()) || mnem(bytes, t, m_sub()) {
            if !register_can(toks, bytes, i + 1) {
                register_err(toks, bytes, i + 1, e)
            } else {
                sep_reg_sep_reg_err(toks, bytes, i + 2, e)
            }
        } else if mnem(bytes, t, m_and()) || mnem(bytes, t, m_or()) || mnem(bytes, t, m_xor()) {
            if !any_op_can(toks, bytes, i + 1) {
                any_op_err(toks, bytes, i + 1, e)
            } else {
                sep_any_reg_err(toks, bytes, i + 1 + any_len_at(toks, bytes, i + 1), e)
            }
        } else if mnem(bytes, t, m_ldi()) || mnem(bytes, t, m_lldi()) {
            if !any_op_can(toks, bytes, i + 1) {
                any_op_err(toks, bytes, i + 1, e)
            } else {
                sep_rd_reg_err(toks, bytes, i + 1 + any_len_at(toks, bytes, i + 1), e)
            }
        } else if mnem(bytes, t, m_sti()) {
            if !register_can(toks, bytes, i + 1) {
                register_err(toks, bytes, i + 1, e)
            } else {
                sep_any_rd_err(toks, bytes, i + 2, e)
            }
        } else {
            e matches ParseError::InvalidOpMnemonic(s, t2) && t2 == t && is_text(
                s@,
                bytes,
                t.start as int,
                t.end as int,
            )
        }
    }
}

/// A cursor over the tokens of one line.
struct TokenStream<'a> {
    bytes: &'a [u8],
    toks: Vec<TokenResult>,
    idx: usize,
}

impl<'a> TokenStream<'a> {
    spec fn wf(&self) -> bool {
        &&& self.idx <= self.toks@.len()
        &&& forall|k: int|
            0 <= k < self.toks@.len() ==> #[trigger] token_range_wf(
                self.toks@[k],
                self.bytes@.len() as int,
            )
    }

    fn peek(&self) -> (r: Option<TokenResult>)
        ensures
            r == (if self.idx < self.toks@.len() {
                Some(self.toks@[self.idx as int])
            } else {
                None::<TokenResult>
            }),
    {
        if self.idx < self.toks.len() {
            Some(*vstd::std_specs::vec::vec_index(&self.toks, self.idx))
        } else {
            None
        }
    }

    /// Takes the next token, which must be of the given terminal.
    fn next_term(&mut self, term: Term) -> (r: ParseResult<Token>)
        requires
            old(self).wf(),
        ensures
            final(self).wf(),
            final(self).bytes == old(self).bytes,
            final(self).toks == old(self).toks,
            r matches Ok(t) ==> tok_ok(
                final(self).toks@,
                old(self).idx as int,
                term,
                t,
                final(self).idx as int,
            ) && t.start <= t.end <= final(self).bytes@.len(),
            r matches Err(e) ==> tok_err(final(self).toks@, old(self).idx as int, term, e),
            final(self).idx >= old(self).idx,
            r is Ok ==> final(self).idx == old(self).idx + 1,
    {
        let n = self.toks.len();
        match self.peek() {
            None => Err(ParseError::ExpectedButGotEof(term)),
            Some(Err(le)) => {
                self.idx = self.idx + 1;
                Err(ParseError::LexerError(le))
            },
            Some(Ok(t)) => {
                self.idx = self.idx + 1;
                if t.term == term {
                    proof {
                        assert(token_range_wf(old(self).toks@[old(self).idx as int], self.bytes@.len() as int));
                    }
                    Ok(t)
                } else {
                    Err(ParseError::ExpectedButGot(term, t))
                }
            },
        }
    }

    /// Takes the next token, which must be a number of either base.
    fn next_number(&mut self) -> (r: ParseResult<Token>)
        requires
            old(self).wf(),
        ensures
            final(self).wf(),
            final(self).bytes == old(self).bytes,
            final(self).toks == old(self).toks,
            r matches Ok(t) ==> {
                &&& 0 <= old(self).idx < final(self).toks@.len()
                &&& final(self).toks@[old(self).idx as int] == Ok::<Token, LexerError>(t)
                &&& t.term is Number
                &&& t.start <= t.end <= final(self).bytes@.len()
            },
            r matches Err(e) ==> number_err(
                final(self).toks@,
                final(self).bytes@,
                old(self).idx as int,
                e,
            ) && !(0 <= old(self).idx < final(self).toks@.len() && final(self).toks@[old(
                self,
            ).idx as int] is Ok && final(self).toks@[old(self).idx as int]->Ok_0.term is Number),
            final(self).idx >= old(self).idx,
            r is Ok ==> final(self).idx == old(self).idx + 1,
    {
        let n = self.toks.len();
        match self.peek() {
            None => Err(ParseError::ExpectedButGotEof(Term::Number { base: NumberBase::Decimal })),
            Some(Err(le)) => {
                self.idx = self.idx + 1;
                Err(ParseError::LexerError(le))
            },
            Some(Ok(t)) => {
                self.idx = self.idx + 1;
                match t.term {
                    Term::Number { base: _ } => {
                        proof {
                            assert(token_range_wf(old(self).toks@[old(self).idx as int], self.bytes@.len() as int));
                        }
                        Ok(t)
                    },
                    _ => Err(
                        ParseError::ExpectedButGot(
                            Term::Number { base: NumberBase::Decimal },
                            t,
                        ),
                    ),
                }
            },
        }
    }

    /// The text of a token, decoded from the line's bytes.
    fn text(&self, start: usize, end: usize) -> (r: String)
        requires
            self.wf(),
            start <= end <= self.bytes@.len(),
        ensures
            is_text(r@, self.bytes@, start as int, end as int),
    {
        string_from_bytes(vstd::slice::slice_subrange(self.bytes, start, end))
    }
}

fn champion_name(ts: &mut TokenStream<'_>) -> (r: ParseResult<String>)
    requires
        old(ts).wf(),
    ensures
        final(ts).wf(),
        final(ts).bytes == old(ts).bytes,
        final(ts).toks == old(ts).toks,
        r matches Ok(s) ==> quoted_directive_ok(
            final(ts).toks@,
            final(ts).bytes@,
            old(ts).idx as int,
            Term::ChampionNameCmd,
            s@,
            final(ts).idx as int,
        ),
        r matches Err(e) ==> directive_err(
            final(ts).toks@,
            old(ts).idx as int,
            Term::ChampionNameCmd,
            e,
        ),
{
    match ts.next_term(Term::ChampionNameCmd) {
        Err(e) => {
            return Err(e);
        },
        Ok(_) => {},
    }
    match ts.next_term(Term::QuotedString) {
        Err(e) => Err(e),
        Ok(t) => Ok(ts.text(t.start, t.end)),
    }
}

fn champion_comment(ts: &mut TokenStream<'_>) -> (r: ParseResult<String>)
    requires
        old(ts).wf(),
    ensures
        final(ts).wf(),
        final(ts).bytes == old(ts).bytes,
        final(ts).toks == old(ts).toks,
        r matches Ok(s) ==> quoted_directive_ok(
            final(ts).toks@,
            final(ts).bytes@,
            old(ts).idx as int,
            Term::ChampionCommentCmd,
            s@,
            final(ts).idx as int,
        ),
        r matches Err(e) ==> directive_err(
            final(ts).toks@,
            old(ts).idx as int,
            Term::ChampionCommentCmd,
            e,
        ),
{
    match ts.next_term(Term::ChampionCommentCmd) {
        Err(e) => {
            return Err(e);
        },
        Ok(_) => {},
    }
    match ts.next_term(Term::QuotedString) {
        Err(e) => Err(e),
        Ok(t) => Ok(ts.text(t.start, t.end)),
    }
}

/// `.code` followed by any run of numbers, each truncated to one byte.
fn raw_code(ts: &mut TokenStream<'_>) -> (r: ParseResult<Vec<u8>>)
    requires
        old(ts).wf(),
    ensures
        final(ts).wf(),
        final(ts).bytes == old(ts).bytes,
        final(ts).toks == old(ts).toks,
        r matches Ok(v) ==> 0 <= old(ts).idx < final(ts).toks@.len()
            && final(ts).toks@[old(ts).idx as int] is Ok
            && final(ts).toks@[old(ts).idx as int]->Ok_0.term is CodeCmd
            && code_run(
            final(ts).toks@,
            final(ts).bytes@,
            old(ts).idx + 1,
            v@,
            final(ts).idx as int,
        ),
        r matches Err(e) ==> (if !(0 <= old(ts).idx < final(ts).toks@.len()
            && final(ts).toks@[old(ts).idx as int] is Ok
            && final(ts).toks@[old(ts).idx as int]->Ok_0.term is CodeCmd) {
            tok_err(final(ts).toks@, old(ts).idx as int, Term::CodeCmd, e)
        } else {
            code_err(final(ts).toks@, final(ts).bytes@, old(ts).idx + 1, e)
        }),
{
    match ts.next_term(Term::CodeCmd) {
        Err(e) => {
            return Err(e);
        },
        Ok(_) => {},
    }
    let ghost start = ts.idx as int;
    let mut out: Vec<u8> = Vec::new();
    loop
        invariant
            ts.wf(),
            ts.bytes == old(ts).bytes,
            ts.toks == old(ts).toks,
            start <= ts.idx as int,
            start == old(ts).idx + 1,
            0 <= old(ts).idx < ts.toks@.len(),
            ts.toks@[old(ts).idx as int] is Ok,
            ts.toks@[old(ts).idx as int]->Ok_0.term is CodeCmd,
            forall|v2: Seq<u8>, j2: int|
                #[trigger] code_run(ts.toks@, ts.bytes@, ts.idx as int, v2, j2) ==> code_run(
                    ts.toks@,
                    ts.bytes@,
                    start,
                    out@ + v2,
                    j2,
                ),
            forall|e2: ParseError|
                #[trigger] code_err(ts.toks@, ts.bytes@, ts.idx as int, e2) ==> code_err(
                    ts.toks@,
                    ts.bytes@,
                    start,
                    e2,
                ),
        ensures
            ts.wf(),
            ts.bytes == old(ts).bytes,
            ts.toks == old(ts).toks,
            start == old(ts).idx + 1,
            0 <= old(ts).idx < ts.toks@.len(),
            ts.toks@[old(ts).idx as int] is Ok,
            ts.toks@[old(ts).idx as int]->Ok_0.term is CodeCmd,
            code_run(ts.toks@, ts.bytes@, start, out@, ts.idx as int),
        decreases ts.toks@.len() - ts.idx,
    {
        let ghost idx0 = ts.idx as int;
        let ghost out0 = out@;
        let saved = ts.idx;
        match ts.next_number() {
            Err(_) => {
                ts.idx = saved;
                proof {
                    assert(code_run(ts.toks@, ts.bytes@, idx0, Seq::<u8>::empty(), idx0));
                    assert(out@ + Seq::<u8>::empty() =~= out@);
                }
                break;
            },
            Ok(t) => {
                match parse_i64(ts.bytes, t.start, t.end) {
                    None => {
                        proof {
                            assert(code_err(ts.toks@, ts.bytes@, idx0, ParseError::NumberOutOfRange(t)));
                        }
                        return Err(ParseError::NumberOutOfRange(t));
                    },
                    Some(v) => {
                        out.push(#[verifier::truncate] (v as u8));
                        proof {
                            let b = #[verifier::truncate] (v as u8);
                            assert forall|v2: Seq<u8>, j2: int|
                                #[trigger] code_run(ts.toks@, ts.bytes@, ts.idx as int, v2, j2)
                                    implies code_run(ts.toks@, ts.bytes@, start, out@ + v2, j2) by {
                                let w = seq![b] + v2;
                                assert(w.drop_first() =~= v2);
                                assert(w[0] == b);
                                assert(code_run(ts.toks@, ts.bytes@, idx0, w, j2));
                                assert(out0 + w =~= out@ + v2);
                            }
                            assert forall|e2: ParseError|
                                #[trigger] code_err(ts.toks@, ts.bytes@, ts.idx as int, e2)
                                    implies code_err(ts.toks@, ts.bytes@, start, e2) by {
                                assert(code_err(ts.toks@, ts.bytes@, idx0, e2));
                            }
                        }
                    },
                }
            },
        }
    }
    Ok(out)
}

fn label(ts: &mut TokenStream<'_>) -> (r: ParseResult<String>)
    requires
        old(ts).wf(),
    ensures
        final(ts).wf(),
        final(ts).bytes == old(ts).bytes,
        final(ts).toks == old(ts).toks,
        r matches Ok(s) ==> label_ok(
            final(ts).toks@,
            final(ts).bytes@,
            old(ts).idx as int,
            s@,
            final(ts).idx as int,
        ),
        r matches Err(e) ==> tok_err(final(ts).toks@, old(ts).idx as int, Term::LabelDef, e),
{
    match ts.next_term(Term::LabelDef) {
        Err(e) => Err(e),
        Ok(t) => {
            // the token ends with the ':' of the definition
            if t.start < t.end {
                Ok(ts.text(t.start, t.end - 1))
            } else {
                Ok(ts.text(t.start, t.end))
            }
        },
    }
}

fn label_param(ts: &mut TokenStream<'_>) -> (r: ParseResult<String>)
    requires
        old(ts).wf(),
    ensures
        final(ts).wf(),
        final(ts).bytes == old(ts).bytes,
        final(ts).toks == old(ts).toks,
        r matches Ok(s) ==> label_param_ok(
            final(ts).toks@,
            final(ts).bytes@,
            old(ts).idx as int,
            s@,
            final(ts).idx as int,
        ),
        r matches Err(e) ==> tok_err(final(ts).toks@, old(ts).idx as int, Term::LabelUse, e)
            && !label_param_can(final(ts).toks@, final(ts).bytes@, old(ts).idx as int),
{
    match ts.next_term(Term::LabelUse) {
        Err(e) => Err(e),
        Ok(t) => {
            // the token starts with the ':' of the reference
            if t.start < t.end {
                Ok(ts.text(t.start + 1, t.end))
            } else {
                Ok(ts.text(t.start, t.end))
            }
        },
    }
}

fn number(ts: &mut TokenStream<'_>) -> (r: ParseResult<i64>)
    requires
        old(ts).wf(),
    ensures
        final(ts).wf(),
        final(ts).bytes == old(ts).bytes,
        final(ts).toks == old(ts).toks,
        r matches Ok(v) ==> number_ok(
            final(ts).toks@,
            final(ts).bytes@,
            old(ts).idx as int,
            v,
            final(ts).idx as int,
        ),
        r matches Err(e) ==> number_err(final(ts).toks@, final(ts).bytes@, old(ts).idx as int, e),
{
    match ts.next_number() {
        Err(e) => Err(e),
        Ok(t) => match parse_i64(ts.bytes, t.start, t.end) {
            None => Err(ParseError::NumberOutOfRange(t)),
            Some(v) => Ok(v),
        },
    }
}

/// A register: `r` followed by an index in `1..=REG_COUNT`.
fn register(ts: &mut TokenStream<'_>) -> (r: ParseResult<Register>)
    requires
        old(ts).wf(),
    ensures
        final(ts).wf(),
        final(ts).bytes == old(ts).bytes,
        final(ts).toks == old(ts).toks,
        r matches Ok(reg) ==> reg_wf(reg) && register_ok(
            final(ts).toks@,
            final(ts).bytes@,
            old(ts).idx as int,
            reg,
            final(ts).idx as int,
        ),
        r matches Err(e) ==> register_err(final(ts).toks@, final(ts).bytes@, old(ts).idx as int, e)
            && !register_can(final(ts).toks@, final(ts).bytes@, old(ts).idx as int),
{
    let t = match ts.next_term(Term::Ident) {
        Err(e) => {
            return Err(e);
        },
        Ok(t) => t,
    };
    if t.start >= t.end {
        return Err(ParseError::InvalidRegisterPrefix(' ', t));
    }
    let first = ts.bytes[t.start];
    if first != 114 {  // 'r'
        return Err(ParseError::InvalidRegisterPrefix(first as char, t));
    }
    match parse_digits(ts.bytes, t.start + 1, t.end, 10) {
        None => Err(ParseError::NumberOutOfRange(t)),
        Some(x) => {
            if t.start + 1 == t.end {
                // bare "r" with no index
                return Err(ParseError::NumberOutOfRange(t));
            }
            if 1 <= x && x <= 16 {
                Ok(Register(x as u8))
            } else {
                Err(ParseError::InvalidRegisterCount(x, t))
            }
        },
    }
}

fn direct(ts: &mut TokenStream<'_>) -> (r: ParseResult<Direct>)
    requires
        old(ts).wf(),
    ensures
        final(ts).wf(),
        final(ts).bytes == old(ts).bytes,
        final(ts).toks == old(ts).toks,
        r matches Ok(v) ==> direct_ok(
            final(ts).toks@,
            final(ts).bytes@,
            old(ts).idx as int,
            v,
            final(ts).idx as int,
        ),
        r matches Err(e) ==> direct_err(final(ts).toks@, final(ts).bytes@, old(ts).idx as int, e)
            && !direct_can(final(ts).toks@, final(ts).bytes@, old(ts).idx as int),
{
    match ts.next_term(Term::DirectChar) {
        Err(e) => {
            return Err(e);
        },
        Ok(_) => {},
    }
    let saved = ts.idx;
    let e1 = match label_param(ts) {
        Ok(l) => {
            return Ok(Direct::Label(l));
        },
        Err(e) => e,
    };
    ts.idx = saved;
    let e2 = match number(ts) {
        Ok(n) => {
            return Ok(Direct::Numeric(n));
        },
        Err(e) => e,
    };
    let mut both: Vec<ParseError> = Vec::new();
    both.push(e1);
    both.push(e2);
    Err(ParseError::ExpectedOneOf(both))
}

fn indirect(ts: &mut TokenStream<'_>) -> (r: ParseResult<Indirect>)
    requires
        old(ts).wf(),
    ensures
        final(ts).wf(),
        final(ts).bytes == old(ts).bytes,
        final(ts).toks == old(ts).toks,
        r matches Ok(v) ==> indirect_ok(
            final(ts).toks@,
            final(ts).bytes@,
            old(ts).idx as int,
            v,
            final(ts).idx as int,
        ),
        r matches Err(e) ==> indirect_err(final(ts).toks@, final(ts).bytes@, old(ts).idx as int, e)
            && !indirect_can(final(ts).toks@, final(ts).bytes@, old(ts).idx as int),
{
    let saved = ts.idx;
    let e1 = match label_param(ts) {
        Ok(l) => {
            return Ok(Indirect::Label(l));
        },
        Err(e) => e,
    };
    ts.idx = saved;
    let e2 = match number(ts) {
        Ok(n) => {
            return Ok(Indirect::Numeric(n));
        },
        Err(e) => e,
    };
    let mut both: Vec<ParseError> = Vec::new();
    both.push(e1);
    both.push(e2);
    Err(ParseError::ExpectedOneOf(both))
}

fn reg_dir(ts: &mut TokenStream<'_>) -> (r: ParseResult<RegDir>)
    requires
        old(ts).wf(),
    ensures
        final(ts).wf(),
        final(ts).bytes == old(ts).bytes,
        final(ts).toks == old(ts).toks,
        r matches Ok(p) ==> reg_dir_wf(p) && rd_op_ok(
            final(ts).toks@,
            final(ts).bytes@,
            old(ts).idx as int,
            p,
            final(ts).idx as int,
        ),
        r matches Err(e) ==> rd_op_err(final(ts).toks@, final(ts).bytes@, old(ts).idx as int, e)
            && !rd_op_can(final(ts).toks@, final(ts).bytes@, old(ts).idx as int),
{
    let saved = ts.idx;
    let e1 = match register(ts) {
        Ok(x) => {
            return Ok(RegDir::Reg(x));
        },
        Err(e) => e,
    };
    ts.idx = saved;
    let e2 = match direct(ts) {
        Ok(x) => {
            return Ok(RegDir::Dir(x));
        },
        Err(e) => e,
    };
    let mut both: Vec<ParseError> = Vec::new();
    both.push(e1);
    both.push(e2);
    Err(ParseError::ExpectedOneOf(both))
}

fn reg_ind(ts: &mut TokenStream<'_>) -> (r: ParseResult<RegInd>)
    requires
        old(ts).wf(),
    ensures
        final(ts).wf(),
        final(ts).bytes == old(ts).bytes,
        final(ts).toks == old(ts).toks,
        r matches Ok(p) ==> reg_ind_wf(p) && ri_op_ok(
            final(ts).toks@,
            final(ts).bytes@,
            old(ts).idx as int,
            p,
            final(ts).idx as int,
        ),
        r matches Err(e) ==> ri_op_err(final(ts).toks@, final(ts).bytes@, old(ts).idx as int, e)
            && !ri_op_can(final(ts).toks@, final(ts).bytes@, old(ts).idx as int),
{
    let saved = ts.idx;
    let e1 = match register(ts) {
        Ok(x) => {
            return Ok(RegInd::Reg(x));
        },
        Err(e) => e,
    };
    ts.idx = saved;
    let e2 = match indirect(ts) {
        Ok(x) => {
            return Ok(RegInd::Ind(x));
        },
        Err(e) => e,
    };
    let mut both: Vec<ParseError> = Vec::new();
    both.push(e1);
    both.push(e2);
    Err(ParseError::ExpectedOneOf(both))
}

fn dir_ind(ts: &mut TokenStream<'_>) -> (r: ParseResult<DirInd>)
    requires
        old(ts).wf(),
    ensures
        final(ts).wf(),
        final(ts).bytes == old(ts).bytes,
        final(ts).toks == old(ts).toks,
        r matches Ok(p) ==> di_op_ok(
            final(ts).toks@,
            final(ts).bytes@,
            old(ts).idx as int,
            p,
            final(ts).idx as int,
        ),
        r matches Err(e) ==> di_op_err(final(ts).toks@, final(ts).bytes@, old(ts).idx as int, e)
            && !di_op_can(final(ts).toks@, final(ts).bytes@, old(ts).idx as int),
{
    let saved = ts.idx;
    let e1 = match direct(ts) {
        Ok(x) => {
            return Ok(DirInd::Dir(x));
        },
        Err(e) => e,
    };
    ts.idx = saved;
    let e2 = match indirect(ts) {
        Ok(x) => {
            return Ok(DirInd::Ind(x));
        },
        Err(e) => e,
    };
    let mut both: Vec<ParseError> = Vec::new();
    both.push(e1);
    both.push(e2);
    Err(ParseError::ExpectedOneOf(both))
}

fn any_param(ts: &mut TokenStream<'_>) -> (r: ParseResult<AnyParam>)
    requires
        old(ts).wf(),
    ensures
        final(ts).wf(),
        final(ts).bytes == old(ts).bytes,
        final(ts).toks == old(ts).toks,
        r matches Ok(p) ==> any_wf(p) && any_op_ok(
            final(ts).toks@,
            final(ts).bytes@,
            old(ts).idx as int,
            p,
            final(ts).idx as int,
        ),
        r matches Err(e) ==> any_op_err(final(ts).toks@, final(ts).bytes@, old(ts).idx as int, e)
            && !any_op_can(final(ts).toks@, final(ts).bytes@, old(ts).idx as int),
{
    let saved = ts.idx;
    let e1 = match register(ts) {
        Ok(x) => {
            return Ok(AnyParam::Reg(x));
        },
        Err(e) => e,
    };
    ts.idx = saved;
    let e2 = match direct(ts) {
        Ok(x) => {
            return Ok(AnyParam::Dir(x));
        },
        Err(e) => e,
    };
    ts.idx = saved;
    let e3 = match indirect(ts) {
        Ok(x) => {
            return Ok(AnyParam::Ind(x));
        },
        Err(e) => e,
    };
    let mut all: Vec<ParseError> = Vec::new();
    all.push(e1);
    all.push(e2);
    all.push(e3);
    Err(ParseError::ExpectedOneOf(all))
}

fn separator(ts: &mut TokenStream<'_>) -> (r: ParseResult<()>)
    requires
        old(ts).wf(),
    ensures
        final(ts).wf(),
        final(ts).bytes == old(ts).bytes,
        final(ts).toks == old(ts).toks,
        r is Ok ==> sep_ok(final(ts).toks@, old(ts).idx as int) && final(ts).idx == old(ts).idx
            + 1,
        r matches Err(e) ==> tok_err(final(ts).toks@, old(ts).idx as int, Term::ParamSeparator, e),
{
    match ts.next_term(Term::ParamSeparator) {
        Err(e) => Err(e),
        Ok(_) => Ok(()),
    }
}

/// Whether the token text `bytes[start..end]` equals the literal.
fn text_is(bytes: &[u8], start: usize, end: usize, lit: &[u8]) -> (r: bool)
    requires
        start <= end <= bytes@.len(),
    ensures
        r == (bytes@.subrange(start as int, end as int) == lit@),
{
    let n = lit.len();
    if end - start != n {
        proof {
            assert(bytes@.subrange(start as int, end as int).len() == end - start);
        }
        return false;
    }
    let mut k: usize = 0;
    while k < n
        invariant
            0 <= k <= n == lit@.len(),
            start + n <= bytes@.len(),
            end == start + n,
            forall|t: int| 0 <= t < k ==> bytes@[start + t] == lit@[t],
        decreases n - k,
    {
        if bytes[start + k] != lit[k] {
            proof {
                assert(bytes@.subrange(start as int, end as int)[k as int] == bytes@[start + k]);
            }
            return false;
        }
        k = k + 1;
    }
    proof {
        assert(bytes@.subrange(start as int, end as int) =~= lit@);
    }
    true
}

/// `<dir-or-ind> , <register>`.
fn args_di_reg(ts: &mut TokenStream<'_>) -> (r: ParseResult<(DirInd, Register)>)
    requires
        old(ts).wf(),
    ensures
        final(ts).wf(),
        final(ts).bytes == old(ts).bytes,
        final(ts).toks == old(ts).toks,
        r matches Ok(v) ==> reg_wf(v.1) && ({
            let j1 = old(ts).idx + di_len_at(final(ts).toks@, old(ts).idx as int);
            &&& di_op_ok(final(ts).toks@, final(ts).bytes@, old(ts).idx as int, v.0, j1)
            &&& sep_ok(final(ts).toks@, j1)
            &&& register_ok(final(ts).toks@, final(ts).bytes@, j1 + 1, v.1, final(ts).idx as int)
        }),
        r matches Err(e) ==> (if !di_op_can(final(ts).toks@, final(ts).bytes@, old(ts).idx as int) {
            di_op_err(final(ts).toks@, final(ts).bytes@, old(ts).idx as int, e)
        } else {
            sep_reg_err(
                final(ts).toks@,
                final(ts).bytes@,
                old(ts).idx + di_len_at(final(ts).toks@, old(ts).idx as int),
                e,
            )
        }),
{
    let a = match dir_ind(ts) {
        Ok(a) => a,
        Err(e) => {
            return Err(e);
        },
    };
    let ghost j1 = ts.idx as int;
    proof {
        assert(di_op_ok(ts.toks@, ts.bytes@, old(ts).idx as int, a, j1));
    }
    match separator(ts) {
        Ok(_) => {},
        Err(e) => {
            return Err(e);
        },
    }
    let c = match register(ts) {
        Ok(c) => c,
        Err(e) => {
            return Err(e);
        },
    };
    proof {
        assert(sep_ok(ts.toks@, j1));
        assert(register_ok(ts.toks@, ts.bytes@, j1 + 1, c, ts.idx as int));
    }
    Ok((a, c))
}

/// `<register> , <reg-or-ind>`.
fn args_reg_ri(ts: &mut TokenStream<'_>) -> (r: ParseResult<(Register, RegInd)>)
    requires
        old(ts).wf(),
    ensures
        final(ts).wf(),
        final(ts).bytes == old(ts).bytes,
        final(ts).toks == old(ts).toks,
        r matches Ok(v) ==> reg_wf(v.0) && reg_ind_wf(v.1) && ({
            let j1 = old(ts).idx + 1;
            &&& register_ok(final(ts).toks@, final(ts).bytes@, old(ts).idx as int, v.0, j1)
            &&& sep_ok(final(ts).toks@, j1)
            &&& ri_op_ok(final(ts).toks@, final(ts).bytes@, j1 + 1, v.1, final(ts).idx as int)
        }),
        r matches Err(e) ==> (if !register_can(
            final(ts).toks@,
            final(ts).bytes@,
            old(ts).idx as int,
        ) {
            register_err(final(ts).toks@, final(ts).bytes@, old(ts).idx as int, e)
        } else {
            sep_ri_err(final(ts).toks@, final(ts).bytes@, old(ts).idx + 1, e)
        }),
{
    let a = match register(ts) {
        Ok(a) => a,
        Err(e) => {
            return Err(e);
        },
    };
    let ghost j1 = ts.idx as int;
    proof {
        assert(register_ok(ts.toks@, ts.bytes@, old(ts).idx as int, a, j1));
    }
    match separator(ts) {
        Ok(_) => {},
        Err(e) => {
            return Err(e);
        },
    }
    let c = match reg_ind(ts) {
        Ok(c) => c,
        Err(e) => {
            return Err(e);
        },
    };
    proof {
        assert(sep_ok(ts.toks@, j1));
        assert(ri_op_ok(ts.toks@, ts.bytes@, j1 + 1, c, ts.idx as int));
    }
    Ok((a, c))
}

/// `<register> , <register> , <register>`.
fn args_reg_reg_reg(ts: &mut TokenStream<'_>) -> (r: ParseResult<(Register, Register, Register)>)
    requires
        old(ts).wf(),
    ensures
        final(ts).wf(),
        final(ts).bytes == old(ts).bytes,
        final(ts).toks == old(ts).toks,
        r matches Ok(v) ==> reg_wf(v.0) && reg_wf(v.1) && reg_wf(v.2) && ({
            let i0 = old(ts).idx as int;
            &&& register_ok(final(ts).toks@, final(ts).bytes@, i0, v.0, i0 + 1)
            &&& sep_ok(final(ts).toks@, i0 + 1)
            &&& register_ok(final(ts).toks@, final(ts).bytes@, i0 + 2, v.1, i0 + 3)
            &&& sep_ok(final(ts).toks@, i0 + 3)
            &&& register_ok(final(ts).toks@, final(ts).bytes@, i0 + 4, v.2, final(ts).idx as int)
        }),
        r matches Err(e) ==> (if !register_can(
            final(ts).toks@,
            final(ts).bytes@,
            old(ts).idx as int,
        ) {
            register_err(final(ts).toks@, final(ts).bytes@, old(ts).idx as int, e)
        } else {
            sep_reg_sep_reg_err(final(ts).toks@, final(ts).bytes@, old(ts).idx + 1, e)
        }),
{
    let a = match register(ts) {
        Ok(a) => a,
        Err(e) => {
            return Err(e);
        },
    };
    let ghost j1 = ts.idx as int;
    proof {
        assert(register_ok(ts.toks@, ts.bytes@, old(ts).idx as int, a, j1));
    }
    match separator(ts) {
        Ok(_) => {},
        Err(e) => {
            return Err(e);
        },
    }
    let b = match register(ts) {
        Ok(b) => b,
        Err(e) => {
            return Err(e);
        },
    };
    let ghost j2 = ts.idx as int;
    proof {
        assert(sep_ok(ts.toks@, j1));
        assert(register_ok(ts.toks@, ts.bytes@, j1 + 1, b, j2));
    }
    match separator(ts) {
        Ok(_) => {},
        Err(e) => {
            return Err(e);
        },
    }
    let c = match register(ts) {
        Ok(c) => c,
        Err(e) => {
            return Err(e);
        },
    };
    proof {
        assert(sep_ok(ts.toks@, j2));
        assert(register_ok(ts.toks@, ts.bytes@, j2 + 1, c, ts.idx as int));
    }
    Ok((a, b, c))
}

/// `<any> , <any> , <register>`.
fn args_any_any_reg(ts: &mut TokenStream<'_>) -> (r: ParseResult<(AnyParam, AnyParam, Register)>)
    requires
        old(ts).wf(),
    ensures
        final(ts).wf(),
        final(ts).bytes == old(ts).bytes,
        final(ts).toks == old(ts).toks,
        r matches Ok(v) ==> any_wf(v.0) && any_wf(v.1) && reg_wf(v.2) && ({
            let i0 = old(ts).idx as int;
            let j1 = i0 + any_len_at(final(ts).toks@, final(ts).bytes@, i0);
            let j2 = j1 + 1 + any_len_at(final(ts).toks@, final(ts).bytes@, j1 + 1);
            &&& any_op_ok(final(ts).toks@, final(ts).bytes@, i0, v.0, j1)
            &&& sep_ok(final(ts).toks@, j1)
            &&& any_op_ok(final(ts).toks@, final(ts).bytes@, j1 + 1, v.1, j2)
            &&& sep_ok(final(ts).toks@, j2)
            &&& register_ok(final(ts).toks@, final(ts).bytes@, j2 + 1, v.2, final(ts).idx as int)
        }),
        r matches Err(e) ==> (if !any_op_can(
            final(ts).toks@,
            final(ts).bytes@,
            old(ts).idx as int,
        ) {
            any_op_err(final(ts).toks@, final(ts).bytes@, old(ts).idx as int, e)
        } else {
            sep_any_reg_err(
                final(ts).toks@,
                final(ts).bytes@,
                old(ts).idx + any_len_at(final(ts).toks@, final(ts).bytes@, old(ts).idx as int),
                e,
            )
        }),
{
    let a = match any_param(ts) {
        Ok(a) => a,
        Err(e) => {
            return Err(e);
        },
    };
    let ghost j1 = ts.idx as int;
    proof {
        assert(any_op_ok(ts.toks@, ts.bytes@, old(ts).idx as int, a, j1));
    }
    match separator(ts) {
        Ok(_) => {},
        Err(e) => {
            return Err(e);
        },
    }
    let b = match any_param(ts) {
        Ok(b) => b,
        Err(e) => {
            return Err(e);
        },
    };
    let ghost j2 = ts.idx as int;
    proof {
        assert(sep_ok(ts.toks@, j1));
        assert(any_op_ok(ts.toks@, ts.bytes@, j1 + 1, b, j2));
    }
    match separator(ts) {
        Ok(_) => {},
        Err(e) => {
            return Err(e);
        },
    }
    let c = match register(ts) {
        Ok(c) => c,
        Err(e) => {
            return Err(e);
        },
    };
    proof {
        assert(sep_ok(ts.toks@, j2));
        assert(register_ok(ts.toks@, ts.bytes@, j2 + 1, c, ts.idx as int));
    }
    Ok((a, b, c))
}

/// `<any> , <reg-or-dir> , <register>`.
fn args_any_rd_reg(ts: &mut TokenStream<'_>) -> (r: ParseResult<(AnyParam, RegDir, Register)>)
    requires
        old(ts).wf(),
    ensures
        final(ts).wf(),
        final(ts).bytes == old(ts).bytes,
        final(ts).toks == old(ts).toks,
        r matches Ok(v) ==> any_wf(v.0) && reg_dir_wf(v.1) && reg_wf(v.2) && ({
            let i0 = old(ts).idx as int;
            let j1 = i0 + any_len_at(final(ts).toks@, final(ts).bytes@, i0);
            let j2 = j1 + 1 + rd_len_at(final(ts).toks@, final(ts).bytes@, j1 + 1);
            &&& any_op_ok(final(ts).toks@, final(ts).bytes@, i0, v.0, j1)
            &&& sep_ok(final(ts).toks@, j1)
            &&& rd_op_ok(final(ts).toks@, final(ts).bytes@, j1 + 1, v.1, j2)
            &&& sep_ok(final(ts).toks@, j2)
            &&& register_ok(final(ts).toks@, final(ts).bytes@, j2 + 1, v.2, final(ts).idx as int)
        }),
        r matches Err(e) ==> (if !any_op_can(
            final(ts).toks@,
            final(ts).bytes@,
            old(ts).idx as int,
        ) {
            any_op_err(final(ts).toks@, final(ts).bytes@, old(ts).idx as int, e)
        } else {
            sep_rd_reg_err(
                final(ts).toks@,
                final(ts).bytes@,
                old(ts).idx + any_len_at(final(ts).toks@, final(ts).bytes@, old(ts).idx as int),
                e,
            )
        }),
{
    let a = match any_param(ts) {
        Ok(a) => a,
        Err(e) => {
            return Err(e);
        },
    };
    let ghost j1 = ts.idx as int;
    proof {
        assert(any_op_ok(ts.toks@, ts.bytes@, old(ts).idx as int, a, j1));
    }
    match separator(ts) {
        Ok(_) => {},
        Err(e) => {
            return Err(e);
        },
    }
    let b = match reg_dir(ts) {
        Ok(b) => b,
        Err(e) => {
            return Err(e);
        },
    };
    let ghost j2 = ts.idx as int;
    proof {
        assert(sep_ok(ts.toks@, j1));
        assert(rd_op_ok(ts.toks@, ts.bytes@, j1 + 1, b, j2));
    }
    match separator(ts) {
        Ok(_) => {},
        Err(e) => {
            return Err(e);
        },
    }
    let c = match register(ts) {
        Ok(c) => c,
        Err(e) => {
            return Err(e);
        },
    };
    proof {
        assert(sep_ok(ts.toks@, j2));
        assert(register_ok(ts.toks@, ts.bytes@, j2 + 1, c, ts.idx as int));
    }
    Ok((a, b, c))
}

/// `<register> , <any> , <reg-or-dir>`.
fn args_reg_any_rd(ts: &mut TokenStream<'_>) -> (r: ParseResult<(Register, AnyParam, RegDir)>)
    requires
        old(ts).wf(),
    ensures
        final(ts).wf(),
        final(ts).bytes == old(ts).bytes,
        final(ts).toks == old(ts).toks,
        r matches Ok(v) ==> reg_wf(v.0) && any_wf(v.1) && reg_dir_wf(v.2) && ({
            let i0 = old(ts).idx as int;
            let j1 = i0 + 1;
            let j2 = j1 + 1 + any_len_at(final(ts).toks@, final(ts).bytes@, j1 + 1);
            &&& register_ok(final(ts).toks@, final(ts).bytes@, i0, v.0, j1)
            &&& sep_ok(final(ts).toks@, j1)
            &&& any_op_ok(final(ts).toks@, final(ts).bytes@, j1 + 1, v.1, j2)
            &&& sep_ok(final(ts).toks@, j2)
            &&& rd_op_ok(final(ts).toks@, final(ts).bytes@, j2 + 1, v.2, final(ts).idx as int)
        }),
        r matches Err(e) ==> (if !register_can(
            final(ts).toks@,
            final(ts).bytes@,
            old(ts).idx as int,
        ) {
            register_err(final(ts).toks@, final(ts).bytes@, old(ts).idx as int, e)
        } else {
            sep_any_rd_err(final(ts).toks@, final(ts).bytes@, old(ts).idx + 1, e)
        }),
{
    let a = match register(ts) {
        Ok(a) => a,
        Err(e) => {
            return Err(e);
        },
    };
    let ghost j1 = ts.idx as int;
    proof {
        assert(register_ok(ts.toks@, ts.bytes@, old(ts).idx as int, a, j1));
    }
    match separator(ts) {
        Ok(_) => {},
        Err(e) => {
            return Err(e);
        },
    }
    let b = match any_param(ts) {
        Ok(b) => b,
        Err(e) => {
            return Err(e);
        },
    };
    let ghost j2 = ts.idx as int;
    proof {
        assert(sep_ok(ts.toks@, j1));
        assert(any_op_ok(ts.toks@, ts.bytes@, j1 + 1, b, j2));
    }
    match separator(ts) {
        Ok(_) => {},
        Err(e) => {
            return Err(e);
        },
    }
    let c = match reg_dir(ts) {
        Ok(c) => c,
        Err(e) => {
            return Err(e);
        },
    };
    proof {
        assert(sep_ok(ts.toks@, j2));
        assert(rd_op_ok(ts.toks@, ts.bytes@, j2 + 1, c, ts.idx as int));
    }
    Ok((a, b, c))
}

/// An operation: a known mnemonic followed by its comma-separated operands.
#[verifier::rlimit(100)]
fn op(ts: &mut TokenStream<'_>) -> (r: ParseResult<Op>)
    requires
        old(ts).wf(),
    ensures
        final(ts).wf(),
        final(ts).bytes == old(ts).bytes,
        final(ts).toks == old(ts).toks,
        r matches Ok(o) ==> op_wf(o) && op_ok(
            final(ts).toks@,
            final(ts).bytes@,
            old(ts).idx as int,
            o,
            final(ts).idx as int,
        ),
        r matches Err(e) ==> op_err(final(ts).toks@, final(ts).bytes@, old(ts).idx as int, e),
{
    let t = match ts.next_term(Term::Ident) {
        Err(e) => {
            return Err(e);
        },
        Ok(t) => t,
    };
    let b = ts.bytes;
    let lit_live: [u8; 4] = [108, 105, 118, 101];
    let lit_ld: [u8; 2] = [108, 100];
    let lit_st: [u8; 2] = [115, 116];
    let lit_add: [u8; 3] = [97, 100, 100];
    let lit_sub: [u8; 3] = [115, 117, 98];
    let lit_and: [u8; 3] = [97, 110, 100];
    let lit_or: [u8; 2] = [111, 114];
    let lit_xor: [u8; 3] = [120, 111, 114];
    let lit_zjmp: [u8; 4] = [122, 106, 109, 112];
    let lit_ldi: [u8; 3] = [108, 100, 105];
    let lit_sti: [u8; 3] = [115, 116, 105];
    let lit_fork: [u8; 4] = [102, 111, 114, 107];
    let lit_lld: [u8; 3] = [108, 108, 100];
    let lit_lldi: [u8; 4] = [108, 108, 100, 105];
    let lit_lfork: [u8; 5] = [108, 102, 111, 114, 107];
    let lit_aff: [u8; 3] = [97, 102, 102];
    proof {
        assert(lit_live@ =~= m_live());
        assert(lit_ld@ =~= m_ld());
        assert(lit_st@ =~= m_st());
        assert(lit_add@ =~= m_add());
        assert(lit_sub@ =~= m_sub());
        assert(lit_and@ =~= m_and());
        assert(lit_or@ =~= m_or());
        assert(lit_xor@ =~= m_xor());
        assert(lit_zjmp@ =~= m_zjmp());
        assert(lit_ldi@ =~= m_ldi());
        assert(lit_sti@ =~= m_sti());
        assert(lit_fork@ =~= m_fork());
        assert(lit_lld@ =~= m_lld());
        assert(lit_lldi@ =~= m_lldi());
        assert(lit_lfork@ =~= m_lfork());
        assert(lit_aff@ =~= m_aff());
    }

    if text_is(b, t.start, t.end, lit_live.as_slice()) {
        let a = direct(ts)?;
        Ok(Op::Live(a))
    } else if text_is(b, t.start, t.end, lit_ld.as_slice()) {
        let (a, c) = args_di_reg(ts)?;
        Ok(Op::Ld(a, c))
    } else if text_is(b, t.start, t.end, lit_st.as_slice()) {
        let (a, c) = args_reg_ri(ts)?;
        Ok(Op::St(a, c))
    } else if text_is(b, t.start, t.end, lit_add.as_slice()) {
        let (a, c, d) = args_reg_reg_reg(ts)?;
        Ok(Op::Add(a, c, d))
    } else if text_is(b, t.start, t.end, lit_sub.as_slice()) {
        let (a, c, d) = args_reg_reg_reg(ts)?;
        Ok(Op::Sub(a, c, d))
    } else if text_is(b, t.start, t.end, lit_and.as_slice()) {
        let (a, c, d) = args_any_any_reg(ts)?;
        Ok(Op::And(a, c, d))
    } else if text_is(b, t.start, t.end, lit_or.as_slice()) {
        let (a, c, d) = args_any_any_reg(ts)?;
        Ok(Op::Or(a, c, d))
    } else if text_is(b, t.start, t.end, lit_xor.as_slice()) {
        let (a, c, d) = args_any_any_reg(ts)?;
        Ok(Op::Xor(a, c, d))
    } else if text_is(b, t.start, t.end, lit_zjmp.as_slice()) {
        let a = direct(ts)?;
        Ok(Op::Zjmp(a))
    } else if text_is(b, t.start, t.end, lit_ldi.as_slice()) {
        let (a, c, d) = args_any_rd_reg(ts)?;
        Ok(Op::Ldi(a, c, d))
    } else if text_is(b, t.start, t.end, lit_sti.as_slice()) {
        let (a, c, d) = args_reg_any_rd(ts)?;
        Ok(Op::Sti(a, c, d))
    } else if text_is(b, t.start, t.end, lit_fork.as_slice()) {
        let a = direct(ts)?;
        Ok(Op::Fork(a))
    } else if text_is(b, t.start, t.end, lit_lld.as_slice()) {
        let (a, c) = args_di_reg(ts)?;
        Ok(Op::Lld(a, c))
    } else if text_is(b, t.start, t.end, lit_lldi.as_slice()) {
        let (a, c, d) = args_any_rd_reg(ts)?;
        Ok(Op::Lldi(a, c, d))
    } else if text_is(b, t.start, t.end, lit_lfork.as_slice()) {
        let a = direct(ts)?;
        Ok(Op::Lfork(a))
    } else if text_is(b, t.start, t.end, lit_aff.as_slice()) {
        let a = register(ts)?;
        Ok(Op::Aff(a))
    } else {
        Err(ParseError::InvalidOpMnemonic(ts.text(t.start, t.end), t))
    }
}

/// Parses one line of source. An empty line - or one holding only a
/// comment - is `Empty`; otherwise the first token decides the shape, and
/// anything left over besides a comment is `RemainingInput`. The whole
/// mapping from the line's tokens to the result - values and errors alike -
/// is `parse_line_rel`.
/// The trailing check of a complete line: only a comment or the end of
/// the line may remain.
fn finish_line(ts: &TokenStream<'_>, parsed: ParsedLine) -> (r: Result<ParsedLine, ParseError>)
    requires
        ts.wf(),
    ensures
        rest_ok(ts.toks@, ts.idx as int) ==> r == Ok::<ParsedLine, ParseError>(parsed),
        !rest_ok(ts.toks@, ts.idx as int) ==> (r matches Err(e) && rest_err(
            ts.toks@,
            ts.idx as int,
            e,
        )),
{
    match ts.peek() {
        None => Ok(parsed),
        Some(Ok(t)) if t.term == Term::Comment => Ok(parsed),
        Some(Ok(t)) => Err(ParseError::RemainingInput(t)),
        Some(Err(le)) => Err(ParseError::LexerError(le)),
    }
}

pub fn parse_line(input: &str) -> (r: Result<ParsedLine, ParseError>)
    ensures
        parse_line_rel(spec_tokens(encode_utf8(input@), 0), encode_utf8(input@), r),
        r matches Ok(ParsedLine::Op(o)) ==> op_wf(o),
        r matches Ok(ParsedLine::LabelAndOp(_, o)) ==> op_wf(o),
{
    let ghost gt = spec_tokens(encode_utf8(input@), 0);
    let ghost gb = encode_utf8(input@);
    let bytes = input.as_bytes();
    let toks = tokenize(input);
    let mut ts = TokenStream { bytes, toks, idx: 0 };
    proof {
        assert(ts.toks@ == gt);
        assert(ts.bytes@ == gb);
    }

    let first = match ts.peek() {
        None => {
            let res = Ok(ParsedLine::Empty);
            proof {
                assert(parse_line_rel(gt, gb, res)) by {
                    reveal(parse_line_rel);
                }
            }
            return res;
        },
        Some(Err(le)) => {
            let res = Err(ParseError::LexerError(le));
            proof {
                assert(parse_line_rel(gt, gb, res)) by {
                    reveal(parse_line_rel);
                }
            }
            return res;
        },
        Some(Ok(t)) => t,
    };

    match first.term {
        Term::ChampionNameCmd => {
            match champion_name(&mut ts) {
                Err(e) => {
                    let res = Err(e);
                    proof {
                        assert(parse_line_rel(gt, gb, res)) by {
                            reveal(parse_line_rel);
                        }
                    }
                    res
                },
                Ok(s) => {
                    proof {
                        assert(quoted_directive_ok(gt, gb, 0, Term::ChampionNameCmd, s@, 2));
                    }
                    let res = finish_line(&ts, ParsedLine::ChampionName(s));
                    proof {
                        assert(parse_line_rel(gt, gb, res)) by {
                            reveal(parse_line_rel);
                        }
                    }
                    res
                },
            }
        },
        Term::ChampionCommentCmd => {
            match champion_comment(&mut ts) {
                Err(e) => {
                    let res = Err(e);
                    proof {
                        assert(parse_line_rel(gt, gb, res)) by {
                            reveal(parse_line_rel);
                        }
                    }
                    res
                },
                Ok(s) => {
                    proof {
                        assert(quoted_directive_ok(gt, gb, 0, Term::ChampionCommentCmd, s@, 2));
                    }
                    let res = finish_line(&ts, ParsedLine::ChampionComment(s));
                    proof {
                        assert(parse_line_rel(gt, gb, res)) by {
                            reveal(parse_line_rel);
                        }
                    }
                    res
                },
            }
        },
        Term::CodeCmd => {
            match raw_code(&mut ts) {
                Err(e) => {
                    let res = Err(e);
                    proof {
                        assert(parse_line_rel(gt, gb, res)) by {
                            reveal(parse_line_rel);
                        }
                    }
                    res
                },
                Ok(v) => {
                    let ghost jv = ts.idx as int;
                    let ghost gv = v@;
                    proof {
                        assert(code_run(gt, gb, 1, gv, jv));
                    }
                    let res = finish_line(&ts, ParsedLine::Code(v));
                    proof {
                        assert(parse_line_rel(gt, gb, res)) by {
                            reveal(parse_line_rel);
                            if rest_ok(gt, jv) {
                                assert(res matches Ok(p) && p matches ParsedLine::Code(v2)
                                    && v2@ == gv);
                            } else {
                                assert(res matches Err(e) && rest_err(gt, jv, e));
                            }
                        }
                    }
                    res
                },
            }
        },
        Term::LabelDef => {
            let l = match label(&mut ts) {
                Err(e) => {
                    let res = Err(e);
                    proof {
                        assert(parse_line_rel(gt, gb, res)) by {
                            reveal(parse_line_rel);
                        }
                    }
                    return res;
                },
                Ok(l) => l,
            };
            proof {
                assert(label_ok(gt, gb, 0, l@, 1));
            }
            match ts.peek() {
                None => {
                    let res = Ok(ParsedLine::Label(l));
                    proof {
                        assert(parse_line_rel(gt, gb, res)) by {
                            reveal(parse_line_rel);
                        }
                    }
                    res
                },
                Some(Ok(t2)) if t2.term == Term::Comment => {
                    let res = Ok(ParsedLine::Label(l));
                    proof {
                        assert(parse_line_rel(gt, gb, res)) by {
                            reveal(parse_line_rel);
                        }
                    }
                    res
                },
                _ => {
                    match op(&mut ts) {
                        Err(e) => {
                            let res = Err(e);
                            proof {
                                assert(op_err(gt, gb, 1, e));
                                assert(parse_line_rel(gt, gb, res)) by {
                                    reveal(parse_line_rel);
                                }
                            }
                            res
                        },
                        Ok(o) => {
                            let ghost jv = ts.idx as int;
                            proof {
                                assert(op_ok(gt, gb, 1, o, jv));
                            }
                            let res = finish_line(&ts, ParsedLine::LabelAndOp(l, o));
                            proof {
                                assert(parse_line_rel(gt, gb, res)) by {
                                    reveal(parse_line_rel);
                                }
                            }
                            res
                        },
                    }
                },
            }
        },
        Term::Ident => {
            match op(&mut ts) {
                Err(e) => {
                    let res = Err(e);
                    proof {
                        assert(op_err(gt, gb, 0, e));
                        assert(parse_line_rel(gt, gb, res)) by {
                            reveal(parse_line_rel);
                        }
                    }
                    res
                },
                Ok(o) => {
                    let ghost jv = ts.idx as int;
                    proof {
                        assert(op_ok(gt, gb, 0, o, jv));
                    }
                    let res = finish_line(&ts, ParsedLine::Op(o));
                    proof {
                        assert(parse_line_rel(gt, gb, res)) by {
                            reveal(parse_line_rel);
                        }
                    }
                    res
                },
            }
        },
        Term::Comment => {
            let res = Ok(ParsedLine::Empty);
            proof {
                assert(parse_line_rel(gt, gb, res)) by {
                    reveal(parse_line_rel);
                }
            }
            res
        },
        _ => {
            let res = Err(ParseError::Unexpected(first));
            proof {
                assert(parse_line_rel(gt, gb, res)) by {
                    reveal(parse_line_rel);
                }
            }
            res
        },
    }
}

/// The byte range `error_range` reports: a plain error's own token range;
/// for a choice among shapes, the earliest start and the latest known end
/// over its sub-errors, down to the given nesting depth. Choices nested
/// deeper than that report an unknown range.
pub open spec fn spec_error_range(err: ParseError, depth: nat) -> (usize, Option<usize>)
    decreases depth, 0nat,
{
    match err {
        ParseError::RemainingInput(t) => (t.start, Some(t.end)),
        ParseError::LexerError(le) => (le.start, Some(le.end)),
        ParseError::Unexpected(t) => (t.start, Some(t.end)),
        ParseError::ExpectedButGot(_, t) => (t.start, Some(t.end)),
        ParseError::ExpectedButGotEof(_) => (0usize, None::<usize>),
        ParseError::InvalidRegisterCount(_, t) => (t.start, Some(t.end)),
        ParseError::InvalidRegisterPrefix(_, t) => (t.start, Some(t.end)),
        ParseError::NumberOutOfRange(t) => (t.start, Some(t.end)),
        ParseError::InvalidOpMnemonic(_, t) => (t.start, Some(t.end)),
        ParseError::ExpectedOneOf(errs) => {
            if depth == 0 {
                (0usize, None::<usize>)
            } else if errs@.len() == 0 {
                (0usize, None::<usize>)
            } else {
                spec_range_fold(errs@, (depth - 1) as nat)
            }
        },
    }
}

/// The running minimum start and maximum known end over a list of
/// sub-errors; the start of an empty list is the largest value, so that
/// any real start replaces it.
pub open spec fn spec_range_fold(es: Seq<ParseError>, depth: nat) -> (usize, Option<usize>)
    decreases depth, es.len() + 1,
{
    if es.len() == 0 {
        (usize::MAX, None::<usize>)
    } else {
        let prev = spec_range_fold(es.drop_last(), depth);
        let cur = spec_error_range(es.last(), depth);
        let ns = if cur.0 < prev.0 {
            cur.0
        } else {
            prev.0
        };
        let ne = match (cur.1, prev.1) {
            (Some(x), None) => Some(x),
            (Some(x), Some(y)) => if x > y {
                Some(x)
            } else {
                Some(y)
            },
            _ => prev.1,
        };
        (ns, ne)
    }
}

/// The byte range an error points at, for highlighting: its start, and
/// its end where one is known. For a choice among shapes it spans from
/// the earliest sub-error to the latest.
pub fn error_range(err: &ParseError) -> (r: (usize, Option<usize>))
    ensures
        r == spec_error_range(*err, 32),
{
    // the grammar nests choices at most a handful of levels deep; the
    // explicit depth bound makes the recursion evidently finite
    error_range_bounded(err, 32)
}

fn error_range_bounded(err: &ParseError, depth: u32) -> (r: (usize, Option<usize>))
    ensures
        r == spec_error_range(*err, depth as nat),
    decreases depth,
{
    match err {
        ParseError::RemainingInput(t) => (t.start, Some(t.end)),
        ParseError::LexerError(le) => (le.start, Some(le.end)),
        ParseError::Unexpected(t) => (t.start, Some(t.end)),
        ParseError::ExpectedButGot(_, t) => (t.start, Some(t.end)),
        ParseError::ExpectedButGotEof(_) => (0, None),
        ParseError::InvalidRegisterCount(_, t) => (t.start, Some(t.end)),
        ParseError::InvalidRegisterPrefix(_, t) => (t.start, Some(t.end)),
        ParseError::NumberOutOfRange(t) => (t.start, Some(t.end)),
        ParseError::InvalidOpMnemonic(_, t) => (t.start, Some(t.end)),
        ParseError::ExpectedOneOf(errs) => {
            if depth == 0 {
                return (0, None);
            }
            let mut min_start: usize = usize::MAX;
            let mut max_end: Option<usize> = None;
            let n = errs.len();
            let mut k: usize = 0;
            while k < n
                invariant
                    k <= n == errs@.len(),
                    depth >= 1,
                    (min_start, max_end) == spec_range_fold(errs@.take(k as int), (depth - 1) as nat),
                decreases n - k,
            {
                proof {
                    assert(errs@.take(k + 1).drop_last() =~= errs@.take(k as int));
                    assert(errs@.take(k + 1).last() == errs@[k as int]);
                }
                let e_ref = vstd::std_specs::vec::vec_index(errs, k);
                let (s, e) = error_range_bounded(e_ref, depth - 1);
                if s < min_start {
                    min_start = s;
                }
                match (e, max_end) {
                    (Some(x), None) => {
                        max_end = Some(x);
                    },
                    (Some(x), Some(y)) => {
                        if x > y {
                            max_end = Some(x);
                        }
                    },
                    _ => {},
                }
                k = k + 1;
            }
            proof {
                assert(errs@.take(n as int) =~= errs@);
            }
            if min_start == usize::MAX && n == 0 {
                (0, None)
            } else {
                (min_start, max_end)
            }
        },
    }
}

} // verus!
