//! The hand-written scanner over assembler source. It works byte-wise on
//! the UTF-8 text of one line; every terminal of the language is ASCII, so
//! each token's `start..end` is a byte range into the line.

use vstd::prelude::*;
use core::ops::Range;
use vstd::utf8::encode_utf8;

verus! {

/// A byte range within the scanned line.
pub type InputRange = Range<usize>;

#[derive(Debug, Clone, Copy, PartialEq, Eq, Structural)]
pub struct Token {
    pub term: Term,
    pub start: usize,
    pub end: usize,
}

pub type TokenResult = Result<Token, LexerError>;

#[derive(Debug, Clone, Copy, PartialEq, Eq, Structural)]
pub enum Term {
    ChampionNameCmd,
    ChampionCommentCmd,
    CodeCmd,
    QuotedString,
    Comment,
    LabelDef,
    LabelUse,
    ParamSeparator,
    DirectChar,
    Number { base: NumberBase },
    Ident,
}

#[derive(Debug, Clone, Copy, PartialEq, Eq, Structural)]
pub enum NumberBase {
    Decimal,
    Hexadecimal,
}

impl NumberBase {
    pub fn radix(&self) -> (r: u32)
        ensures
            self is Decimal ==> r == 10,
            self is Hexadecimal ==> r == 16,
    {
        match self {
            NumberBase::Decimal => 10,
            NumberBase::Hexadecimal => 16,
        }
    }
}

#[derive(Debug, Clone, Copy, PartialEq, Eq, Structural)]
pub struct LexerError {
    pub kind: LexerErrorKind,
    pub start: usize,
    pub end: usize,
}

#[derive(Debug, Clone, Copy, PartialEq, Eq, Structural)]
pub enum LexerErrorKind {
    NoMatch,
    InvalidDirective,
    UnclosedQuotedString,
    NoNumberAfterMinus,
    EmptyLabel,
}

impl LexerErrorKind {
    pub fn at(self, at: Range<usize>) -> (r: LexerError)
        ensures
            r == (LexerError { kind: self, start: at.start, end: at.end }),
    {
        LexerError { kind: self, start: at.start, end: at.end }
    }
}

impl Term {
    pub fn at(self, range: Range<usize>) -> (r: Token)
        ensures
            r == (Token { term: self, start: range.start, end: range.end }),
    {
        Token { term: self, start: range.start, end: range.end }
    }
}

/// ASCII whitespace, as the scanner skips it.
pub open spec fn is_space(b: u8) -> bool {
    b == 32 || b == 9 || b == 10 || b == 11 || b == 12 || b == 13
}

pub open spec fn is_digit(b: u8) -> bool {
    48 <= b <= 57
}

pub open spec fn is_hex_digit(b: u8) -> bool {
    is_digit(b) || (97 <= b <= 102) || (65 <= b <= 70)
}

/// Bytes that may appear in identifiers and labels.
pub open spec fn is_ident_byte(b: u8) -> bool {
    is_digit(b) || (97 <= b <= 122) || (65 <= b <= 90) || b == 95
}

/// Whether byte `b` may appear in a number of base `base` (after its
/// optional prefix).
pub open spec fn is_base_digit(b: u8, base: NumberBase) -> bool {
    match base {
        NumberBase::Decimal => is_digit(b),
        NumberBase::Hexadecimal => is_hex_digit(b),
    }
}

/// The first position at or after `i` whose byte is not whitespace.
pub open spec fn skip_spaces(s: Seq<u8>, i: int) -> int
    decreases s.len() - i,
{
    if i < 0 || i >= s.len() {
        s.len() as int
    } else if is_space(s[i]) {
        skip_spaces(s, i + 1)
    } else {
        i
    }
}

/// The first position at or after `i` whose byte fails `pred`.
pub open spec fn scan_ident(s: Seq<u8>, i: int) -> int
    decreases s.len() - i,
{
    if i < 0 || i >= s.len() {
        s.len() as int
    } else if is_ident_byte(s[i]) {
        scan_ident(s, i + 1)
    } else {
        i
    }
}

pub open spec fn scan_digits(s: Seq<u8>, i: int, base: NumberBase) -> int
    decreases s.len() - i,
{
    if i < 0 || i >= s.len() {
        s.len() as int
    } else if is_base_digit(s[i], base) {
        scan_digits(s, i + 1, base)
    } else {
        i
    }
}

/// The first position at or after `i` holding the byte `stop`, or the end.
pub open spec fn scan_until(s: Seq<u8>, i: int, stop: u8) -> int
    decreases s.len() - i,
{
    if i < 0 || i >= s.len() {
        s.len() as int
    } else if s[i] == stop {
        i
    } else {
        scan_until(s, i + 1, stop)
    }
}

/// The first position at or after `i` holding whitespace, or the end.
pub open spec fn scan_to_space(s: Seq<u8>, i: int) -> int
    decreases s.len() - i,
{
    if i < 0 || i >= s.len() {
        s.len() as int
    } else if is_space(s[i]) {
        i
    } else {
        scan_to_space(s, i + 1)
    }
}

/// Whether the bytes of `lit` occur at position `i` of `s`.
pub open spec fn has_prefix(s: Seq<u8>, i: int, lit: Seq<u8>) -> bool {
    &&& 0 <= i
    &&& i + lit.len() <= s.len()
    &&& forall|k: int| 0 <= k < lit.len() ==> s[i + k] == lit[k]
}

pub open spec fn name_cmd_bytes() -> Seq<u8> {
    seq![46u8, 110u8, 97u8, 109u8, 101u8]
}

pub open spec fn comment_cmd_bytes() -> Seq<u8> {
    seq![46u8, 99u8, 111u8, 109u8, 109u8, 101u8, 110u8, 116u8]
}

pub open spec fn code_cmd_bytes() -> Seq<u8> {
    seq![46u8, 99u8, 111u8, 100u8, 101u8]
}

/// The token or error beginning at position `i` - which must hold a
/// non-space byte - together with the position where scanning resumes.
pub open spec fn spec_token(s: Seq<u8>, i: int) -> (TokenResult, int) {
    let b = s[i];
    if b == 58 {  // ':'
        if i + 1 < s.len() && is_ident_byte(s[i + 1]) {
            let end = scan_ident(s, i + 1);
            (Ok(Token { term: Term::LabelUse, start: i as usize, end: end as usize }), end)
        } else {
            (
                Err(
                    LexerError {
                        kind: LexerErrorKind::EmptyLabel,
                        start: i as usize,
                        end: (i + 1) as usize,
                    },
                ),
                i + 1,
            )
        }
    } else if b == 44 {  // ','
        (
            Ok(Token { term: Term::ParamSeparator, start: i as usize, end: (i + 1) as usize }),
            i + 1,
        )
    } else if b == 37 {  // '%'
        (Ok(Token { term: Term::DirectChar, start: i as usize, end: (i + 1) as usize }), i + 1)
    } else if b == 46 {  // '.'
        spec_directive(s, i)
    } else if b == 34 {  // '"'
        let close = scan_until(s, i + 1, 34);
        if close < s.len() {
            (
                Ok(Token { term: Term::QuotedString, start: (i + 1) as usize, end: close as usize }),
                close + 1,
            )
        } else {
            (
                Err(
                    LexerError {
                        kind: LexerErrorKind::UnclosedQuotedString,
                        start: i as usize,
                        end: s.len() as usize,
                    },
                ),
                s.len() as int,
            )
        }
    } else if b == 35 {  // '#'
        (
            Ok(Token { term: Term::Comment, start: i as usize, end: s.len() as usize }),
            s.len() as int,
        )
    } else if b == 45 {  // '-'
        if i + 1 < s.len() && is_digit(s[i + 1]) {
            spec_number(s, i, i + 1)
        } else {
            (
                Err(
                    LexerError {
                        kind: LexerErrorKind::NoNumberAfterMinus,
                        start: i as usize,
                        end: (i + 1) as usize,
                    },
                ),
                i + 1,
            )
        }
    } else if is_digit(b) {
        spec_number(s, i, i)
    } else if is_ident_byte(b) {
        let end = scan_ident(s, i);
        if end < s.len() && s[end] == 58 {
            (Ok(Token { term: Term::LabelDef, start: i as usize, end: (end + 1) as usize }), end + 1)
        } else {
            (Ok(Token { term: Term::Ident, start: i as usize, end: end as usize }), end)
        }
    } else {
        (
            Err(
                LexerError {
                    kind: LexerErrorKind::NoMatch,
                    start: i as usize,
                    end: (i + 1) as usize,
                },
            ),
            i + 1,
        )
    }
}

/// A number token starting at `start` whose first digit sits at `d`: an
/// optional `0x` or `0d` prefix chooses the base, then the digits run out.
pub open spec fn spec_number(s: Seq<u8>, start: int, d: int) -> (TokenResult, int) {
    if s[d] == 48 && d + 1 < s.len() && s[d + 1] == 120 {  // "0x"
        let end = scan_digits(s, d + 2, NumberBase::Hexadecimal);
        (
            Ok(
                Token {
                    term: Term::Number { base: NumberBase::Hexadecimal },
                    start: start as usize,
                    end: end as usize,
                },
            ),
            end,
        )
    } else if s[d] == 48 && d + 1 < s.len() && s[d + 1] == 100 {  // "0d"
        let end = scan_digits(s, d + 2, NumberBase::Decimal);
        (
            Ok(
                Token {
                    term: Term::Number { base: NumberBase::Decimal },
                    start: start as usize,
                    end: end as usize,
                },
            ),
            end,
        )
    } else {
        let end = scan_digits(s, d + 1, NumberBase::Decimal);
        (
            Ok(
                Token {
                    term: Term::Number { base: NumberBase::Decimal },
                    start: start as usize,
                    end: end as usize,
                },
            ),
            end,
        )
    }
}

/// A directive beginning at the `.` at `i`: one of the three known
/// directives followed by whitespace or the end of the line, or an
/// `InvalidDirective` error spanning to the next whitespace.
pub open spec fn spec_directive(s: Seq<u8>, i: int) -> (TokenResult, int) {
    if has_prefix(s, i, name_cmd_bytes()) {
        spec_directive_tail(s, i, 5, Term::ChampionNameCmd)
    } else if has_prefix(s, i, comment_cmd_bytes()) {
        spec_directive_tail(s, i, 8, Term::ChampionCommentCmd)
    } else if has_prefix(s, i, code_cmd_bytes()) {
        spec_directive_tail(s, i, 5, Term::CodeCmd)
    } else {
        let end = scan_to_space(s, i);
        (
            Err(
                LexerError {
                    kind: LexerErrorKind::InvalidDirective,
                    start: i as usize,
                    end: end as usize,
                },
            ),
            end,
        )
    }
}

/// What follows a recognised directive of `len` bytes: the end of the
/// line, a whitespace byte (consumed), or anything else - an error.
pub open spec fn spec_directive_tail(s: Seq<u8>, i: int, len: int, term: Term) -> (
    TokenResult,
    int,
) {
    if i + len == s.len() {
        (Ok(Token { term, start: i as usize, end: s.len() as usize }), s.len() as int)
    } else if is_space(s[i + len]) {
        (Ok(Token { term, start: i as usize, end: (i + len) as usize }), i + len + 1)
    } else {
        (
            Err(
                LexerError {
                    kind: LexerErrorKind::InvalidDirective,
                    start: i as usize,
                    end: (i + len) as usize,
                },
            ),
            i + len + 1,
        )
    }
}

/// Scanning one token always moves forward and never past the end.
pub proof fn lemma_token_progress(s: Seq<u8>, i: int)
    requires
        0 <= i < s.len(),
        !is_space(s[i]),
    ensures
        i < spec_token(s, i).1 <= s.len(),
{
    lemma_scan_ident_bounds(s, i + 1);
    lemma_scan_until_bounds(s, i + 1, 34);
    lemma_scan_to_space_bounds(s, i + 1);
    lemma_scan_digits_bounds(s, i + 1, NumberBase::Decimal);
    lemma_scan_digits_bounds(s, i + 2, NumberBase::Decimal);
    lemma_scan_digits_bounds(s, i + 2, NumberBase::Hexadecimal);
    lemma_scan_digits_bounds(s, i + 3, NumberBase::Decimal);
    lemma_scan_digits_bounds(s, i + 3, NumberBase::Hexadecimal);
    if s[i] == 46 {
        assert(scan_to_space(s, i) == scan_to_space(s, i + 1));
    }
    if is_ident_byte(s[i]) {
        assert(scan_ident(s, i) == scan_ident(s, i + 1));
    }
}

pub proof fn lemma_scan_ident_bounds(s: Seq<u8>, i: int)
    requires
        0 <= i,
    ensures
        scan_ident(s, i) <= s.len(),
        i <= s.len() ==> i <= scan_ident(s, i),
        i > s.len() ==> scan_ident(s, i) == s.len(),
    decreases s.len() - i,
{
    if i < s.len() && is_ident_byte(s[i]) {
        lemma_scan_ident_bounds(s, i + 1);
    }
}

pub proof fn lemma_scan_until_bounds(s: Seq<u8>, i: int, stop: u8)
    requires
        0 <= i,
    ensures
        scan_until(s, i, stop) <= s.len(),
        i <= s.len() ==> i <= scan_until(s, i, stop),
        i > s.len() ==> scan_until(s, i, stop) == s.len(),
    decreases s.len() - i,
{
    if i < s.len() && s[i] != stop {
        lemma_scan_until_bounds(s, i + 1, stop);
    }
}

pub proof fn lemma_scan_to_space_bounds(s: Seq<u8>, i: int)
    requires
        0 <= i,
    ensures
        scan_to_space(s, i) <= s.len(),
        i <= s.len() ==> i <= scan_to_space(s, i),
        i > s.len() ==> scan_to_space(s, i) == s.len(),
    decreases s.len() - i,
{
    if i < s.len() && !is_space(s[i]) {
        lemma_scan_to_space_bounds(s, i + 1);
    }
}

pub proof fn lemma_scan_digits_bounds(s: Seq<u8>, i: int, base: NumberBase)
    requires
        0 <= i,
    ensures
        scan_digits(s, i, base) <= s.len(),
        i <= s.len() ==> i <= scan_digits(s, i, base),
        i > s.len() ==> scan_digits(s, i, base) == s.len(),
    decreases s.len() - i,
{
    if i < s.len() && is_base_digit(s[i], base) {
        lemma_scan_digits_bounds(s, i + 1, base);
    }
}

pub proof fn lemma_skip_spaces_bounds(s: Seq<u8>, i: int)
    requires
        0 <= i <= s.len(),
    ensures
        i <= skip_spaces(s, i) <= s.len(),
        skip_spaces(s, i) < s.len() ==> !is_space(s[skip_spaces(s, i)]),
    decreases s.len() - i,
{
    if i < s.len() && is_space(s[i]) {
        lemma_skip_spaces_bounds(s, i + 1);
    }
}

/// The scanner: a cursor over the line's bytes.
pub struct Tokenizer<'a> {
    bytes: &'a [u8],
    pos: usize,
    /// The line being scanned.
    pub input: &'a str,
}

impl<'a> Tokenizer<'a> {
    pub closed spec fn spec_bytes(&self) -> Seq<u8> {
        self.bytes@
    }

    pub closed spec fn spec_pos(&self) -> int {
        self.pos as int
    }

    pub closed spec fn spec_input(&self) -> Seq<char> {
        self.input@
    }

    pub open spec fn wf(&self) -> bool {
        &&& self.spec_bytes() == encode_utf8(self.spec_input())
        &&& 0 <= self.spec_pos() <= self.spec_bytes().len()
        &&& self.spec_bytes().len() <= usize::MAX
    }

    pub fn new(input: &'a str) -> (r: Tokenizer<'a>)
        ensures
            r.wf(),
            r.spec_bytes() == encode_utf8(input@),
            r.spec_pos() == 0,
    {
        let bytes = input.as_bytes();
        let n = bytes.len();
        Tokenizer { bytes, pos: 0, input }
    }

    /// The next token of the line, or `None` once only whitespace is left.
    pub fn next_token(&mut self) -> (r: Option<TokenResult>)
        requires
            old(self).wf(),
        ensures
            final(self).wf(),
            final(self).spec_bytes() == old(self).spec_bytes(),
            final(self).spec_input() == old(self).spec_input(),
            ({
                let s = old(self).spec_bytes();
                let start = skip_spaces(s, old(self).spec_pos());
                if start >= s.len() {
                    r is None && final(self).spec_pos() == s.len()
                } else {
                    &&& r == Some(spec_token(s, start).0)
                    &&& final(self).spec_pos() == spec_token(s, start).1
                    &&& final(self).spec_pos() > old(self).spec_pos()
                }
            }),
    {
        let ghost s = self.bytes@;
        let len = self.bytes.len();
        while self.pos < len && is_space_byte(self.bytes[self.pos])
            invariant
                self.bytes@ == s,
                len == s.len(),
                self.spec_input() == old(self).spec_input(),
                0 <= self.pos <= len,
                old(self).spec_pos() <= self.pos,
                skip_spaces(s, old(self).spec_pos()) == skip_spaces(s, self.pos as int),
            decreases len - self.pos,
        {
            self.pos = self.pos + 1;
        }
        proof {
            lemma_skip_spaces_bounds(s, self.pos as int);
        }
        if self.pos >= len {
            return None;
        }
        let i = self.pos;
        proof {
            assert(skip_spaces(s, i as int) == i as int);
            lemma_token_progress(s, i as int);
        }
        let b = self.bytes[i];
        if b == 58 {
            if i + 1 < len && is_ident_b(self.bytes[i + 1]) {
                let end = self.scan_ident_from(i + 1);
                self.pos = end;
                Some(Ok(Token { term: Term::LabelUse, start: i, end }))
            } else {
                self.pos = i + 1;
                Some(
                    Err(LexerError { kind: LexerErrorKind::EmptyLabel, start: i, end: i + 1 }),
                )
            }
        } else if b == 44 {
            self.pos = i + 1;
            Some(Ok(Token { term: Term::ParamSeparator, start: i, end: i + 1 }))
        } else if b == 37 {
            self.pos = i + 1;
            Some(Ok(Token { term: Term::DirectChar, start: i, end: i + 1 }))
        } else if b == 46 {
            Some(self.lex_directive(i))
        } else if b == 34 {
            let close = self.scan_until_from(i + 1, 34);
            if close < len {
                self.pos = close + 1;
                Some(Ok(Token { term: Term::QuotedString, start: i + 1, end: close }))
            } else {
                self.pos = len;
                Some(
                    Err(
                        LexerError {
                            kind: LexerErrorKind::UnclosedQuotedString,
                            start: i,
                            end: len,
                        },
                    ),
                )
            }
        } else if b == 35 {
            self.pos = len;
            Some(Ok(Token { term: Term::Comment, start: i, end: len }))
        } else if b == 45 {
            if i + 1 < len && is_digit_b(self.bytes[i + 1]) {
                Some(self.lex_number(i, i + 1))
            } else {
                self.pos = i + 1;
                Some(
                    Err(
                        LexerError {
                            kind: LexerErrorKind::NoNumberAfterMinus,
                            start: i,
                            end: i + 1,
                        },
                    ),
                )
            }
        } else if is_digit_b(b) {
            Some(self.lex_number(i, i))
        } else if is_ident_b(b) {
            let end = self.scan_ident_from(i);
            if end < len && self.bytes[end] == 58 {
                self.pos = end + 1;
                Some(Ok(Token { term: Term::LabelDef, start: i, end: end + 1 }))
            } else {
                self.pos = end;
                Some(Ok(Token { term: Term::Ident, start: i, end }))
            }
        } else {
            self.pos = i + 1;
            Some(Err(LexerError { kind: LexerErrorKind::NoMatch, start: i, end: i + 1 }))
        }
    }

    /// Scans a number whose first digit sits at `d`.
    fn lex_number(&mut self, start: usize, d: usize) -> (r: TokenResult)
        requires
            old(self).wf(),
            start <= d < old(self).spec_bytes().len(),
            is_digit(old(self).spec_bytes()[d as int]),
        ensures
            final(self).wf(),
            final(self).spec_bytes() == old(self).spec_bytes(),
            final(self).spec_input() == old(self).spec_input(),
            r == spec_number(old(self).spec_bytes(), start as int, d as int).0,
            final(self).spec_pos() == spec_number(old(self).spec_bytes(), start as int, d as int).1,
    {
        let ghost s = self.bytes@;
        let len = self.bytes.len();
        let b0 = self.bytes[d];
        let (base, digits_from): (NumberBase, usize) = if b0 == 48 && d + 1 < len
            && self.bytes[d + 1] == 120 {
            (NumberBase::Hexadecimal, d + 2)
        } else if b0 == 48 && d + 1 < len && self.bytes[d + 1] == 100 {
            (NumberBase::Decimal, d + 2)
        } else {
            (NumberBase::Decimal, d + 1)
        };
        let end = self.scan_digits_from(digits_from, base);
        self.pos = end;
        Ok(Token { term: Term::Number { base }, start, end })
    }

    /// Scans a directive beginning at the `.` at `i`.
    fn lex_directive(&mut self, i: usize) -> (r: TokenResult)
        requires
            old(self).wf(),
            i < old(self).spec_bytes().len(),
            old(self).spec_bytes()[i as int] == 46,
        ensures
            final(self).wf(),
            final(self).spec_bytes() == old(self).spec_bytes(),
            final(self).spec_input() == old(self).spec_input(),
            r == spec_directive(old(self).spec_bytes(), i as int).0,
            final(self).spec_pos() == spec_directive(old(self).spec_bytes(), i as int).1,
    {
        let ghost s = self.bytes@;
        let len = self.bytes.len();
        let name_lit: [u8; 5] = [46, 110, 97, 109, 101];
        let comment_lit: [u8; 8] = [46, 99, 111, 109, 109, 101, 110, 116];
        let code_lit: [u8; 5] = [46, 99, 111, 100, 101];
        proof {
            assert(name_lit@ =~= name_cmd_bytes());
            assert(comment_lit@ =~= comment_cmd_bytes());
            assert(code_lit@ =~= code_cmd_bytes());
        }
        let (dir_len, term): (usize, Term) = if self.match_at(i, name_lit.as_slice()) {
            (5, Term::ChampionNameCmd)
        } else if self.match_at(i, comment_lit.as_slice()) {
            (8, Term::ChampionCommentCmd)
        } else if self.match_at(i, code_lit.as_slice()) {
            (5, Term::CodeCmd)
        } else {
            let end = self.scan_to_space_from(i);
            self.pos = end;
            return Err(
                LexerError { kind: LexerErrorKind::InvalidDirective, start: i, end },
            );
        };
        if i + dir_len == len {
            self.pos = len;
            Ok(Token { term, start: i, end: len })
        } else if is_space_byte(self.bytes[i + dir_len]) {
            self.pos = i + dir_len + 1;
            Ok(Token { term, start: i, end: i + dir_len })
        } else {
            self.pos = i + dir_len + 1;
            Err(
                LexerError { kind: LexerErrorKind::InvalidDirective, start: i, end: i + dir_len },
            )
        }
    }

    /// Whether the literal occurs at position `i`.
    fn match_at(&self, i: usize, lit: &[u8]) -> (r: bool)
        requires
            self.wf(),
            i <= self.spec_bytes().len(),
        ensures
            r == has_prefix(self.spec_bytes(), i as int, lit@),
    {
        let n = lit.len();
        let len = self.bytes.len();
        if n > len - i {
            return false;
        }
        let mut k: usize = 0;
        while k < n
            invariant
                0 <= k <= n == lit@.len(),
                i + n <= len == self.spec_bytes().len(),
                self.wf(),
                forall|t: int| 0 <= t < k ==> self.spec_bytes()[i + t] == lit@[t],
            decreases n - k,
        {
            if self.bytes[i + k] != lit[k] {
                return false;
            }
            k = k + 1;
        }
        true
    }

    fn scan_ident_from(&self, i: usize) -> (r: usize)
        requires
            self.wf(),
            i <= self.spec_bytes().len(),
        ensures
            r == scan_ident(self.spec_bytes(), i as int),
            i <= r <= self.spec_bytes().len(),
    {
        let len = self.bytes.len();
        let mut k = i;
        while k < len && is_ident_b(self.bytes[k])
            invariant
                i <= k <= len == self.spec_bytes().len(),
                self.wf(),
                scan_ident(self.spec_bytes(), i as int) == scan_ident(self.spec_bytes(), k as int),
            decreases len - k,
        {
            k = k + 1;
        }
        k
    }

    fn scan_digits_from(&self, i: usize, base: NumberBase) -> (r: usize)
        requires
            self.wf(),
            i <= self.spec_bytes().len() + 2,
        ensures
            r == scan_digits(self.spec_bytes(), i as int, base),
            r <= self.spec_bytes().len(),
            i <= self.spec_bytes().len() ==> i <= r,
    {
        let len = self.bytes.len();
        if i >= len {
            return len;
        }
        let mut k = i;
        while k < len && is_base_digit_b(self.bytes[k], base)
            invariant
                i <= k <= len == self.spec_bytes().len(),
                self.wf(),
                scan_digits(self.spec_bytes(), i as int, base) == scan_digits(
                    self.spec_bytes(),
                    k as int,
                    base,
                ),
            decreases len - k,
        {
            k = k + 1;
        }
        k
    }

    fn scan_until_from(&self, i: usize, stop: u8) -> (r: usize)
        requires
            self.wf(),
            i <= self.spec_bytes().len(),
        ensures
            r == scan_until(self.spec_bytes(), i as int, stop),
            i <= r <= self.spec_bytes().len(),
            r < self.spec_bytes().len() ==> self.spec_bytes()[r as int] == stop,
    {
        let len = self.bytes.len();
        let mut k = i;
        while k < len && self.bytes[k] != stop
            invariant
                i <= k <= len == self.spec_bytes().len(),
                self.wf(),
                scan_until(self.spec_bytes(), i as int, stop) == scan_until(
                    self.spec_bytes(),
                    k as int,
                    stop,
                ),
            decreases len - k,
        {
            k = k + 1;
        }
        k
    }

    fn scan_to_space_from(&self, i: usize) -> (r: usize)
        requires
            self.wf(),
            i <= self.spec_bytes().len(),
        ensures
            r == scan_to_space(self.spec_bytes(), i as int),
            i <= r <= self.spec_bytes().len(),
    {
        let len = self.bytes.len();
        let mut k = i;
        while k < len && !is_space_byte(self.bytes[k])
            invariant
                i <= k <= len == self.spec_bytes().len(),
                self.wf(),
                scan_to_space(self.spec_bytes(), i as int) == scan_to_space(
                    self.spec_bytes(),
                    k as int,
                ),
            decreases len - k,
        {
            k = k + 1;
        }
        k
    }
}

fn is_space_byte(b: u8) -> (r: bool)
    ensures
        r == is_space(b),
{
    b == 32 || b == 9 || b == 10 || b == 11 || b == 12 || b == 13
}

fn is_digit_b(b: u8) -> (r: bool)
    ensures
        r == is_digit(b),
{
    48 <= b && b <= 57
}

fn is_ident_b(b: u8) -> (r: bool)
    ensures
        r == is_ident_byte(b),
{
    (48 <= b && b <= 57) || (97 <= b && b <= 122) || (65 <= b && b <= 90) || b == 95
}

fn is_base_digit_b(b: u8, base: NumberBase) -> (r: bool)
    ensures
        r == is_base_digit(b, base),
{
    match base {
        NumberBase::Decimal => 48 <= b && b <= 57,
        NumberBase::Hexadecimal => (48 <= b && b <= 57) || (97 <= b && b <= 102) || (65 <= b
            && b <= 70),
    }
}

/// Every token's byte range is ordered and lies within the line.
pub open spec fn token_range_wf(tr: TokenResult, len: int) -> bool {
    match tr {
        Ok(t) => t.start <= t.end <= len,
        Err(e) => e.start <= e.end <= len,
    }
}

/// The range of a scanned token lies within the line.
pub proof fn lemma_token_range(s: Seq<u8>, i: int)
    requires
        0 <= i < s.len(),
        s.len() <= usize::MAX,
        !is_space(s[i]),
    ensures
        token_range_wf(spec_token(s, i).0, s.len() as int),
{
    lemma_scan_ident_bounds(s, i + 1);
    lemma_scan_until_bounds(s, i + 1, 34);
    lemma_scan_to_space_bounds(s, i + 1);
    lemma_scan_digits_bounds(s, i + 1, NumberBase::Decimal);
    lemma_scan_digits_bounds(s, i + 2, NumberBase::Decimal);
    lemma_scan_digits_bounds(s, i + 2, NumberBase::Hexadecimal);
    lemma_scan_digits_bounds(s, i + 3, NumberBase::Decimal);
    lemma_scan_digits_bounds(s, i + 3, NumberBase::Hexadecimal);
    if s[i] == 46 {
        assert(scan_to_space(s, i) == scan_to_space(s, i + 1));
    }
    if is_ident_byte(s[i]) {
        assert(scan_ident(s, i) == scan_ident(s, i + 1));
    }
}

/// The whole token sequence of a line, scanning from position `i`.
pub open spec fn spec_tokens(s: Seq<u8>, i: int) -> Seq<TokenResult>
    decreases s.len() - i,
    when 0 <= i
    via spec_tokens_decreases
{
    let start = skip_spaces(s, i);
    if start >= s.len() {
        Seq::empty()
    } else {
        seq![spec_token(s, start).0] + spec_tokens(s, spec_token(s, start).1)
    }
}

#[via_fn]
proof fn spec_tokens_decreases(s: Seq<u8>, i: int) {
    lemma_skip_spaces_bounds(s, if i <= s.len() {
        i
    } else {
        s.len() as int
    });
    if 0 <= i <= s.len() {
        lemma_skip_spaces_bounds(s, i);
        let start = skip_spaces(s, i);
        if start < s.len() {
            lemma_token_progress(s, start);
        }
    }
}

/// Every token of a line has a well-formed range.
pub proof fn lemma_tokens_range_wf(s: Seq<u8>, i: int)
    requires
        0 <= i <= s.len(),
        s.len() <= usize::MAX,
    ensures
        forall|k: int|
            0 <= k < spec_tokens(s, i).len() ==> #[trigger] token_range_wf(
                spec_tokens(s, i)[k],
                s.len() as int,
            ),
    decreases s.len() - i,
{
    lemma_skip_spaces_bounds(s, i);
    let start = skip_spaces(s, i);
    if start < s.len() {
        lemma_token_progress(s, start);
        lemma_token_range(s, start);
        let next = spec_token(s, start).1;
        lemma_tokens_range_wf(s, next);
        let whole = spec_tokens(s, i);
        let tail = spec_tokens(s, next);
        assert(whole == seq![spec_token(s, start).0] + tail);
        assert forall|k: int| 0 <= k < whole.len() implies #[trigger] token_range_wf(
            whole[k],
            s.len() as int,
        ) by {
            if k == 0 {
                assert(whole[0] == spec_token(s, start).0);
            } else {
                assert(whole[k] == tail[k - 1]);
                assert(token_range_wf(tail[k - 1], s.len() as int));
            }
        }
    }
}

/// All tokens of one line, in order.
pub fn tokenize(input: &str) -> (r: Vec<TokenResult>)
    ensures
        r@ == spec_tokens(encode_utf8(input@), 0),
        forall|k: int|
            0 <= k < r@.len() ==> #[trigger] token_range_wf(
                r@[k],
                encode_utf8(input@).len() as int,
            ),
{
    let mut tz = Tokenizer::new(input);
    let ghost s = tz.spec_bytes();
    let mut out: Vec<TokenResult> = Vec::new();
    loop
        invariant
            tz.wf(),
            tz.spec_bytes() == s,
            s == encode_utf8(input@),
            0 <= tz.spec_pos() <= s.len(),
            out@ + spec_tokens(s, tz.spec_pos()) == spec_tokens(s, 0),
        ensures
            out@ == spec_tokens(s, 0),
        decreases s.len() - tz.spec_pos(),
    {
        let ghost pos0 = tz.spec_pos();
        match tz.next_token() {
            Some(t) => {
                proof {
                    lemma_skip_spaces_bounds(s, pos0);
                    let start = skip_spaces(s, pos0);
                    assert(spec_tokens(s, pos0) == seq![spec_token(s, start).0] + spec_tokens(
                        s,
                        spec_token(s, start).1,
                    ));
                }
                out.push(t);
                proof {
                    assert(out@ + spec_tokens(s, tz.spec_pos()) =~= spec_tokens(s, 0));
                }
            },
            None => {
                proof {
                    assert(spec_tokens(s, pos0) =~= Seq::<TokenResult>::empty());
                    assert(out@ + spec_tokens(s, pos0) =~= out@);
                }
                break;
            },
        }
    }
    proof {
        lemma_tokens_range_wf(s, 0);
    }
    out
}

} // verus!
