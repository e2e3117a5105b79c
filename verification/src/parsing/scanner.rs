//! The scanner: from source text to tokens, in one pass over its bytes.

use crate::parsing::keywords::{keyword_table, keywords_map, word_kind};
use crate::parsing::tokens::{token_views, Token, TokenType, TokenView};
use crate::text::{lemma_ascii_is_bounded, slice, slice_text};
use vstd::hash_map::StringHashMap;
use vstd::prelude::*;
use vstd::string::StringSliceAdditionalSpecFns;
use vstd::utf8::{encode_utf8, encode_utf8_valid_utf8, is_char_boundary, valid_utf8};

verus! {

/// The bytes that the scanner tells apart, each named after the character
/// it encodes.
pub const LEFT_PAREN: u8 = 0x28;

pub const RIGHT_PAREN: u8 = 0x29;

pub const LEFT_BRACE: u8 = 0x7b;

pub const RIGHT_BRACE: u8 = 0x7d;

pub const COMMA: u8 = 0x2c;

pub const DOT: u8 = 0x2e;

pub const MINUS: u8 = 0x2d;

pub const PLUS: u8 = 0x2b;

pub const SEMICOLON: u8 = 0x3b;

pub const STAR: u8 = 0x2a;

pub const BANG: u8 = 0x21;

pub const EQUAL: u8 = 0x3d;

pub const LESS: u8 = 0x3c;

pub const GREATER: u8 = 0x3e;

pub const SLASH: u8 = 0x2f;

pub const SPACE: u8 = 0x20;

pub const RETURN: u8 = 0x0d;

pub const TAB: u8 = 0x09;

pub const NEWLINE: u8 = 0x0a;

pub const QUOTE: u8 = 0x22;

pub const ZERO: u8 = 0x30;

pub const NINE: u8 = 0x39;

pub const LOWER_A: u8 = 0x61;

pub const LOWER_Z: u8 = 0x7a;

pub const UPPER_A: u8 = 0x41;

pub const UPPER_Z: u8 = 0x5a;

pub const UNDERSCORE: u8 = 0x5f;

/// What can be wrong with a source text.
#[derive(Debug, Clone, Copy, PartialEq, Eq, Structural)]
pub enum ScanFailureKind {
    /// A character that starts no token.
    UnexpectedCharacter,
    /// A string literal that the text ends in.
    UnterminatedString,
}

/// The first thing wrong with a source text, and the line it is on.
#[derive(Debug, Clone, Copy, PartialEq, Eq, Structural)]
pub struct ScanFailure {
    pub line: u32,
    pub kind: ScanFailureKind,
}

/// The message that goes with a kind of failure.
pub open spec fn failure_message(kind: ScanFailureKind) -> Seq<char> {
    match kind {
        ScanFailureKind::UnexpectedCharacter => "Unexpected character."@,
        ScanFailureKind::UnterminatedString => "Unterminated string."@,
    }
}

impl ScanFailure {
    /// The message that goes with this failure.
    pub fn message(&self) -> (r: String)
        ensures
            r@ == failure_message(self.kind),
    {
        match self.kind {
            ScanFailureKind::UnexpectedCharacter => "Unexpected character.".to_owned(),
            ScanFailureKind::UnterminatedString => "Unterminated string.".to_owned(),
        }
    }
}

pub open spec fn is_digit(c: u8) -> bool {
    ZERO <= c && c <= NINE
}

pub open spec fn is_alpha(c: u8) -> bool {
    (LOWER_A <= c && c <= LOWER_Z) || (UPPER_A <= c && c <= UPPER_Z) || c == UNDERSCORE
}

pub open spec fn is_alpha_numeric(c: u8) -> bool {
    is_digit(c) || is_alpha(c)
}

/// Bytes that end a run of digits.
pub open spec fn not_digit() -> spec_fn(u8) -> bool {
    |c: u8| !is_digit(c)
}

/// Bytes that end a word.
pub open spec fn not_word() -> spec_fn(u8) -> bool {
    |c: u8| !is_alpha_numeric(c)
}

/// The byte that ends a line.
pub open spec fn newline() -> spec_fn(u8) -> bool {
    |c: u8| c == NEWLINE
}

/// The byte that ends a string literal.
pub open spec fn quote() -> spec_fn(u8) -> bool {
    |c: u8| c == QUOTE
}

/// The first place from `from` on that holds a byte on which `stop` holds,
/// or the end of `src` where there is none.
pub open spec fn run_end(src: Seq<u8>, from: int, stop: spec_fn(u8) -> bool) -> int
    decreases src.len() - from,
{
    if 0 <= from < src.len() && !stop(src[from]) {
        run_end(src, from + 1, stop)
    } else {
        from
    }
}

/// The number of line ends among the bytes `from..to` of `src`.
pub open spec fn newlines(src: Seq<u8>, from: int, to: int) -> nat
    decreases to - from,
{
    if 0 <= from < to <= src.len() {
        newlines(src, from, to - 1) + if src[to - 1] == NEWLINE {
            1nat
        } else {
            0nat
        }
    } else {
        0
    }
}

/// The line `by` lines after `line`.  Lines are counted up to `u32::MAX`.
pub open spec fn bump(line: u32, by: nat) -> u32 {
    if line + by > u32::MAX {
        u32::MAX
    } else {
        (line + by) as u32
    }
}

/// Whether `src` holds the byte `c` at `at`.
pub open spec fn follows(src: Seq<u8>, at: int, c: u8) -> bool {
    0 <= at < src.len() && src[at] == c
}

/// Where the number literal that starts at `start` ends: after its digits,
/// and after a `.` and more digits where at least one digit follows the `.`.
pub open spec fn number_end(src: Seq<u8>, start: int) -> int {
    let whole = run_end(src, start, not_digit());
    if follows(src, whole, DOT) && whole + 1 < src.len() && is_digit(src[whole + 1]) {
        run_end(src, whole + 1, not_digit())
    } else {
        whole
    }
}

/// What stands at a place in the source.
pub enum Found {
    /// A token of this category.
    Token(TokenType),
    /// White space or a comment.
    Gap,
    /// Nothing that can be scanned.
    Failure(ScanFailureKind),
}

/// What stands at a place in the source, where it ends, and the line that
/// its end is on.
pub struct Piece {
    pub found: Found,
    pub end: int,
    pub line: u32,
}

/// A one-byte token.
pub open spec fn short(kind: TokenType, start: int, line: u32) -> Piece {
    Piece { found: Found::Token(kind), end: start + 1, line }
}

/// An operator that is `long` where `=` follows its first byte, and `short`
/// where it does not.
pub open spec fn operator(src: Seq<u8>, start: int, line: u32, long: TokenType, short: TokenType) -> Piece {
    if follows(src, start + 1, EQUAL) {
        Piece { found: Found::Token(long), end: start + 2, line }
    } else {
        Piece { found: Found::Token(short), end: start + 1, line }
    }
}

/// What stands at `start`, a place inside `src` on line `line`.
pub open spec fn piece(src: Seq<u8>, start: int, line: u32) -> Piece {
    let c = src[start];
    if c == LEFT_PAREN {
        short(TokenType::LEFT_PAREN, start, line)
    } else if c == RIGHT_PAREN {
        short(TokenType::RIGHT_PAREN, start, line)
    } else if c == LEFT_BRACE {
        short(TokenType::LEFT_BRACE, start, line)
    } else if c == RIGHT_BRACE {
        short(TokenType::RIGHT_BRACE, start, line)
    } else if c == COMMA {
        short(TokenType::COMMA, start, line)
    } else if c == DOT {
        short(TokenType::DOT, start, line)
    } else if c == MINUS {
        short(TokenType::MINUS, start, line)
    } else if c == PLUS {
        short(TokenType::PLUS, start, line)
    } else if c == SEMICOLON {
        short(TokenType::SEMICOLON, start, line)
    } else if c == STAR {
        short(TokenType::STAR, start, line)
    } else if c == BANG {
        operator(src, start, line, TokenType::BANG_EQUAL, TokenType::BANG)
    } else if c == EQUAL {
        operator(src, start, line, TokenType::EQUAL_EQUAL, TokenType::EQUAL)
    } else if c == LESS {
        operator(src, start, line, TokenType::LESS_EQUAL, TokenType::LESS)
    } else if c == GREATER {
        operator(src, start, line, TokenType::GREATER_EQUAL, TokenType::GREATER)
    } else if c == SLASH {
        if follows(src, start + 1, SLASH) {
            Piece { found: Found::Gap, end: run_end(src, start + 2, newline()), line }
        } else {
            short(TokenType::SLASH, start, line)
        }
    } else if c == SPACE || c == RETURN || c == TAB {
        Piece { found: Found::Gap, end: start + 1, line }
    } else if c == NEWLINE {
        Piece { found: Found::Gap, end: start + 1, line: bump(line, 1) }
    } else if c == QUOTE {
        let close = run_end(src, start + 1, quote());
        let line = bump(line, newlines(src, start + 1, close));
        if close < src.len() {
            Piece { found: Found::Token(TokenType::STRING), end: close + 1, line }
        } else {
            Piece { found: Found::Failure(ScanFailureKind::UnterminatedString), end: close, line }
        }
    } else if is_digit(c) {
        Piece { found: Found::Token(TokenType::NUMBER), end: number_end(src, start), line }
    } else if is_alpha(c) {
        let end = run_end(src, start + 1, not_word());
        Piece { found: Found::Token(word_kind(slice_text(src, start, end))), end, line }
    } else {
        Piece { found: Found::Failure(ScanFailureKind::UnexpectedCharacter), end: start + 1, line }
    }
}

/// The token of category `kind` that the bytes `start..end` of `src` spell,
/// on line `line`.  A string carries its text without the quotes; a number
/// carries no value yet.
pub open spec fn token_at(src: Seq<u8>, start: int, end: int, kind: TokenType, line: u32) -> TokenView {
    TokenView {
        variant: kind,
        lexeme: slice_text(src, start, end),
        string: if kind == TokenType::STRING {
            Some(slice_text(src, start + 1, end - 1))
        } else {
            None
        },
        number: None,
        line,
    }
}

/// The token that ends every scan.
pub open spec fn eof_token(line: u32) -> TokenView {
    TokenView { variant: TokenType::EOF, lexeme: Seq::empty(), string: None, number: None, line }
}

/// `tokens` before what `rest` holds, where `rest` is no failure.
pub open spec fn after(tokens: Seq<TokenView>, rest: Result<Seq<TokenView>, ScanFailure>) -> Result<
    Seq<TokenView>,
    ScanFailure,
> {
    match rest {
        Ok(more) => Ok(tokens + more),
        Err(failure) => Err(failure),
    }
}

/// Every piece is at least one byte long.
pub proof fn lemma_piece_ends_later(src: Seq<u8>, start: int, line: u32)
    requires
        0 <= start < src.len(),
    ensures
        start < piece(src, start, line).end <= src.len(),
{
    lemma_run_end(src, start + 2, newline());
    lemma_run_end(src, start + 1, quote());
    lemma_run_end(src, start + 1, not_word());
    lemma_run_end(src, start, not_digit());
    let whole = run_end(src, start, not_digit());
    lemma_run_end(src, whole + 1, not_digit());
}

/// A run ends at or after its start, inside the source where it starts
/// there, on a stopping byte or at the end of the source, and holds no
/// stopping byte before its end.
pub proof fn lemma_run_end(src: Seq<u8>, from: int, stop: spec_fn(u8) -> bool)
    ensures
        from <= run_end(src, from, stop),
        0 <= from <= src.len() ==> run_end(src, from, stop) <= src.len(),
        0 <= from <= src.len() && run_end(src, from, stop) < src.len() ==> stop(
            src[run_end(src, from, stop)],
        ),
        forall|i: int| 0 <= from <= i < run_end(src, from, stop) ==> !stop(#[trigger] src[i]),
    decreases src.len() - from,
{
    if 0 <= from < src.len() && !stop(src[from]) {
        lemma_run_end(src, from + 1, stop);
    }
}

/// The tokens of `src` from `start` on, a place on line `line`, or the
/// first failure.
pub open spec fn scan_from(src: Seq<u8>, start: int, line: u32) -> Result<Seq<TokenView>, ScanFailure>
    decreases src.len() - start,
    via scan_from_decreases
{
    if 0 <= start < src.len() {
        let p = piece(src, start, line);
        match p.found {
            Found::Token(kind) => after(
                seq![token_at(src, start, p.end, kind, p.line)],
                scan_from(src, p.end, p.line),
            ),
            Found::Gap => scan_from(src, p.end, p.line),
            Found::Failure(kind) => Err(ScanFailure { line: p.line, kind }),
        }
    } else {
        Ok(seq![eof_token(line)])
    }
}

#[via_fn]
proof fn scan_from_decreases(src: Seq<u8>, start: int, line: u32) {
    if 0 <= start < src.len() {
        lemma_piece_ends_later(src, start, line);
    }
}

/// The tokens of `src`, ending in `EOF`, or the first failure.
pub open spec fn scan(src: Seq<u8>) -> Result<Seq<TokenView>, ScanFailure> {
    scan_from(src, 0, 1)
}

/// Counting one more byte counts one more line where the byte ends a line.
proof fn lemma_newlines_step(src: Seq<u8>, from: int, to: int)
    requires
        0 <= from <= to < src.len(),
    ensures
        newlines(src, from, to + 1) == newlines(src, from, to) + if src[to] == NEWLINE {
            1nat
        } else {
            0nat
        },
{
    if from == to {
        assert(newlines(src, from, to) == 0);
    }
}

/// A scanner over one source text.
pub struct Scanner {
    source: String,
    tokens: Vec<Token>,
    start: usize,
    current: usize,
    line: u32,
    failure: Option<ScanFailure>,
    keywords: StringHashMap<TokenType>,
}

impl Scanner {
    /// The bytes of the source text.
    pub closed spec fn bytes(&self) -> Seq<u8> {
        encode_utf8(self.source@)
    }

    /// Whether the scanner knows every reserved word.
    pub closed spec fn wf(&self) -> bool {
        self.keywords@ == keyword_table()
    }

    /// The tokens scanned so far, as views.
    spec fn scanned(&self) -> Seq<TokenView> {
        token_views(self.tokens@)
    }

    /// Whether the lexeme under the cursor starts and ends with a byte that
    /// is a character of its own.
    spec fn lexeme_is_bounded(&self) -> bool {
        &&& self.start < self.current <= self.bytes().len()
        &&& self.bytes()[self.start as int] < 0x80
        &&& self.bytes()[self.current - 1] < 0x80
    }

    /// Whether nothing but the cursor differs from `before`.
    spec fn moved_from(&self, before: &Scanner) -> bool {
        &&& self.source == before.source
        &&& self.keywords == before.keywords
        &&& self.tokens == before.tokens
        &&& self.start == before.start
        &&& self.line == before.line
        &&& self.failure == before.failure
    }

    /// Whether nothing but the tokens differs from `before`, and the tokens
    /// by `token` at their end.
    spec fn added_to(&self, before: &Scanner, token: TokenView) -> bool {
        &&& self.source == before.source
        &&& self.keywords == before.keywords
        &&& self.scanned() == before.scanned().push(token)
        &&& self.start == before.start
        &&& self.current == before.current
        &&& self.line == before.line
        &&& self.failure == before.failure
    }

    /// A scanner over `source`.
    pub fn new(source: String) -> (r: Self)
        ensures
            r.wf(),
            r.bytes() == encode_utf8(source@),
    {
        Scanner {
            source,
            tokens: Vec::new(),
            start: 0,
            current: 0,
            line: 1,
            failure: None,
            keywords: keywords_map(),
        }
    }

    /// Scans the source text from its start: its tokens in order, ending in
    /// `EOF`, or the first failure.  Number tokens carry no value yet.
    pub fn scan_tokens(&mut self) -> (r: Result<Vec<Token>, ScanFailure>)
        requires
            old(self).wf(),
        ensures
            final(self).wf(),
            final(self).bytes() == old(self).bytes(),
            match r {
                Ok(tokens) => scan(old(self).bytes()) == Ok::<Seq<TokenView>, ScanFailure>(
                    token_views(tokens@),
                ),
                Err(failure) => scan(old(self).bytes()) == Err::<Seq<TokenView>, ScanFailure>(
                    failure,
                ),
            },
    {
        self.tokens = Vec::new();
        self.start = 0;
        self.current = 0;
        self.line = 1;
        self.failure = None;
        assert(self.scanned() =~= Seq::empty());
        while !self.is_at_end()
            invariant
                self.wf(),
                self.bytes() == old(self).bytes(),
                self.current <= self.bytes().len(),
                self.failure is None,
                scan(self.bytes()) == after(
                    self.scanned(),
                    scan_from(self.bytes(), self.current as int, self.line),
                ),
            decreases self.bytes().len() - self.current,
        {
            self.start = self.current;
            let ghost before = self.scanned();
            let ghost p = piece(self.bytes(), self.start as int, self.line);
            proof {
                lemma_piece_ends_later(self.bytes(), self.start as int, self.line);
            }
            self.scan_token();
            match self.failure {
                Some(failure) => {
                    return Err(failure);
                },
                None => {},
            }
            proof {
                match p.found {
                    Found::Token(kind) => {
                        let token = token_at(self.bytes(), self.start as int, p.end, kind, p.line);
                        let rest = scan_from(self.bytes(), p.end, p.line);
                        match rest {
                            Ok(more) => {
                                assert(before + (seq![token] + more) =~= before.push(token)
                                    + more);
                            },
                            Err(_) => {},
                        }
                    },
                    _ => {},
                }
            }
        }
        let ghost before = self.scanned();
        let eof = Token::new(TokenType::EOF, String::new(), self.line);
        assert(eof@ == eof_token(self.line));
        self.tokens.push(eof);
        assert(self.scanned() =~= before + seq![eof_token(self.line)]);
        let mut tokens = Vec::new();
        core::mem::swap(&mut self.tokens, &mut tokens);
        Ok(tokens)
    }

    fn is_at_end(&self) -> (r: bool)
        ensures
            r == (self.current >= self.bytes().len()),
    {
        self.current >= self.source.as_str().as_bytes().len()
    }

    /// Scans what stands at the cursor.
    fn scan_token(&mut self)
        requires
            old(self).wf(),
            old(self).start == old(self).current,
            old(self).current < old(self).bytes().len(),
            old(self).failure is None,
        ensures
            final(self).source == old(self).source,
            final(self).keywords == old(self).keywords,
            final(self).start == old(self).start,
            ({
                let p = piece(old(self).bytes(), old(self).start as int, old(self).line);
                match p.found {
                    Found::Token(kind) => {
                        &&& final(self).failure is None
                        &&& final(self).current == p.end
                        &&& final(self).line == p.line
                        &&& final(self).scanned() == old(self).scanned().push(
                            token_at(old(self).bytes(), old(self).start as int, p.end, kind, p.line),
                        )
                    },
                    Found::Gap => {
                        &&& final(self).failure is None
                        &&& final(self).current == p.end
                        &&& final(self).line == p.line
                        &&& final(self).scanned() == old(self).scanned()
                    },
                    Found::Failure(kind) => final(self).failure == Some(
                        ScanFailure { line: p.line, kind },
                    ),
                }
            }),
    {
        let c = self.advance();
        if c == LEFT_PAREN {
            self.add_token(TokenType::LEFT_PAREN)
        } else if c == RIGHT_PAREN {
            self.add_token(TokenType::RIGHT_PAREN)
        } else if c == LEFT_BRACE {
            self.add_token(TokenType::LEFT_BRACE)
        } else if c == RIGHT_BRACE {
            self.add_token(TokenType::RIGHT_BRACE)
        } else if c == COMMA {
            self.add_token(TokenType::COMMA)
        } else if c == DOT {
            self.add_token(TokenType::DOT)
        } else if c == MINUS {
            self.add_token(TokenType::MINUS)
        } else if c == PLUS {
            self.add_token(TokenType::PLUS)
        } else if c == SEMICOLON {
            self.add_token(TokenType::SEMICOLON)
        } else if c == STAR {
            self.add_token(TokenType::STAR)
        } else if c == BANG {
            let token = if self.match_expected_char(EQUAL) {
                TokenType::BANG_EQUAL
            } else {
                TokenType::BANG
            };
            self.add_token(token);
        } else if c == EQUAL {
            let token = if self.match_expected_char(EQUAL) {
                TokenType::EQUAL_EQUAL
            } else {
                TokenType::EQUAL
            };
            self.add_token(token);
        } else if c == LESS {
            let token = if self.match_expected_char(EQUAL) {
                TokenType::LESS_EQUAL
            } else {
                TokenType::LESS
            };
            self.add_token(token);
        } else if c == GREATER {
            let token = if self.match_expected_char(EQUAL) {
                TokenType::GREATER_EQUAL
            } else {
                TokenType::GREATER
            };
            self.add_token(token);
        } else if c == SLASH {
            if self.match_expected_char(SLASH) {
                let ghost from = self.current;
                while self.peek() != NEWLINE && !self.is_at_end()
                    invariant
                        self.moved_from(old(self)),
                        from <= self.current <= self.bytes().len(),
                        run_end(self.bytes(), self.current as int, newline()) == run_end(
                            self.bytes(),
                            from as int,
                            newline(),
                        ),
                    decreases self.bytes().len() - self.current,
                {
                    self.advance();
                }
            } else {
                self.add_token(TokenType::SLASH)
            }
        } else if c == SPACE || c == RETURN || c == TAB {
        } else if c == NEWLINE {
            self.line = if self.line < u32::MAX {
                self.line + 1
            } else {
                self.line
            };
        } else if c == QUOTE {
            self.string();
        } else if Scanner::is_digit(c) {
            self.number();
        } else if Scanner::is_alpha(c) {
            self.identifier();
        } else {
            self.failure = Some(
                ScanFailure { line: self.line, kind: ScanFailureKind::UnexpectedCharacter },
            );
        }
    }

    /// Scans a string literal whose opening quote is just behind the
    /// cursor.
    fn string(&mut self)
        requires
            old(self).current == old(self).start + 1,
            old(self).current <= old(self).bytes().len(),
            old(self).bytes()[old(self).start as int] == QUOTE,
            old(self).failure is None,
        ensures
            final(self).source == old(self).source,
            final(self).keywords == old(self).keywords,
            final(self).start == old(self).start,
            ({
                let src = old(self).bytes();
                let close = run_end(src, old(self).current as int, quote());
                let line = bump(old(self).line, newlines(src, old(self).current as int, close));
                if close < src.len() {
                    &&& final(self).failure is None
                    &&& final(self).current == close + 1
                    &&& final(self).line == line
                    &&& final(self).scanned() == old(self).scanned().push(
                        token_at(src, old(self).start as int, close + 1, TokenType::STRING, line),
                    )
                } else {
                    final(self).failure == Some(
                        ScanFailure { line, kind: ScanFailureKind::UnterminatedString },
                    )
                }
            }),
    {
        let ghost from = self.current;
        let ghost first = self.line;
        while self.peek() != QUOTE && !self.is_at_end()
            invariant
                self.source == old(self).source,
                self.keywords == old(self).keywords,
                self.tokens == old(self).tokens,
                self.start == old(self).start,
                self.failure is None,
                from == self.start + 1,
                from <= self.current <= self.bytes().len(),
                run_end(self.bytes(), self.current as int, quote()) == run_end(
                    self.bytes(),
                    from as int,
                    quote(),
                ),
                self.line == bump(first, newlines(self.bytes(), from as int, self.current as int)),
            decreases self.bytes().len() - self.current,
        {
            proof {
                lemma_newlines_step(self.bytes(), from as int, self.current as int);
            }
            if self.peek() == NEWLINE {
                self.line = if self.line < u32::MAX {
                    self.line + 1
                } else {
                    self.line
                };
            }
            self.advance();
        }

        if self.is_at_end() {
            self.failure = Some(
                ScanFailure { line: self.line, kind: ScanFailureKind::UnterminatedString },
            );
            return ;
        }
        self.advance();

        proof {
            let src = self.bytes();
            encode_utf8_valid_utf8(self.source@);
            lemma_ascii_is_bounded(src, self.start as int);
            lemma_ascii_is_bounded(src, self.current - 1);
        }
        let value = slice(self.source.as_str(), self.start + 1, self.current - 1);
        self.add_string_token(TokenType::STRING, value);
    }

    /// Scans a number literal whose first digit is just behind the cursor.
    fn number(&mut self)
        requires
            old(self).current == old(self).start + 1,
            old(self).current <= old(self).bytes().len(),
            is_digit(old(self).bytes()[old(self).start as int]),
            old(self).failure is None,
        ensures
            final(self).source == old(self).source,
            final(self).keywords == old(self).keywords,
            final(self).start == old(self).start,
            final(self).failure is None,
            final(self).line == old(self).line,
            final(self).current == number_end(old(self).bytes(), old(self).start as int),
            final(self).scanned() == old(self).scanned().push(
                token_at(
                    old(self).bytes(),
                    old(self).start as int,
                    final(self).current as int,
                    TokenType::NUMBER,
                    old(self).line,
                ),
            ),
    {
        while Scanner::is_digit(self.peek())
            invariant
                self.moved_from(old(self)),
                self.lexeme_is_bounded(),
                run_end(self.bytes(), self.current as int, not_digit()) == run_end(
                    self.bytes(),
                    self.start as int,
                    not_digit(),
                ),
            decreases self.bytes().len() - self.current,
        {
            self.advance();
        }

        if self.peek() == DOT && Scanner::is_digit(self.peek_next()) {
            self.advance();
            let ghost from = self.current;

            while Scanner::is_digit(self.peek())
                invariant
                    self.moved_from(old(self)),
                    self.lexeme_is_bounded(),
                    from <= self.current,
                    from < self.bytes().len(),
                    is_digit(self.bytes()[from as int]),
                    from < self.current ==> is_digit(self.bytes()[self.current - 1]),
                    run_end(self.bytes(), self.current as int, not_digit()) == run_end(
                        self.bytes(),
                        from as int,
                        not_digit(),
                    ),
                decreases self.bytes().len() - self.current,
            {
                self.advance();
            }
        }
        self.add_token(TokenType::NUMBER)
    }

    /// Scans a word whose first byte is just behind the cursor.
    fn identifier(&mut self)
        requires
            old(self).wf(),
            old(self).current == old(self).start + 1,
            old(self).current <= old(self).bytes().len(),
            is_alpha(old(self).bytes()[old(self).start as int]),
            old(self).failure is None,
        ensures
            final(self).source == old(self).source,
            final(self).keywords == old(self).keywords,
            final(self).start == old(self).start,
            final(self).failure is None,
            final(self).line == old(self).line,
            final(self).current == run_end(old(self).bytes(), old(self).current as int, not_word()),
            final(self).scanned() == old(self).scanned().push(
                token_at(
                    old(self).bytes(),
                    old(self).start as int,
                    final(self).current as int,
                    word_kind(
                        slice_text(
                            old(self).bytes(),
                            old(self).start as int,
                            final(self).current as int,
                        ),
                    ),
                    old(self).line,
                ),
            ),
    {
        while Scanner::is_alpha_numeric(self.peek())
            invariant
                self.moved_from(old(self)),
                self.lexeme_is_bounded(),
                run_end(self.bytes(), self.current as int, not_word()) == run_end(
                    self.bytes(),
                    old(self).current as int,
                    not_word(),
                ),
            decreases self.bytes().len() - self.current,
        {
            self.advance();
        }

        proof {
            encode_utf8_valid_utf8(self.source@);
            lemma_ascii_is_bounded(self.bytes(), self.start as int);
            lemma_ascii_is_bounded(self.bytes(), self.current - 1);
        }
        let text = slice(self.source.as_str(), self.start, self.current);
        let token = match self.keywords.get(text.as_str()) {
            Some(token_t) => *token_t,
            None => TokenType::IDENTIFIER,
        };
        self.add_token(token);
    }

    /// The byte at the cursor, or 0 at the end of the source.
    fn peek(&self) -> (r: u8)
        ensures
            r == if self.current < self.bytes().len() {
                self.bytes()[self.current as int]
            } else {
                0u8
            },
    {
        if self.is_at_end() {
            return 0;
        }
        self.source.as_str().as_bytes()[self.current]
    }

    /// The byte after the one at the cursor, or 0 where the source has none.
    fn peek_next(&self) -> (r: u8)
        ensures
            r == if self.current + 1 < self.bytes().len() {
                self.bytes()[self.current + 1]
            } else {
                0u8
            },
    {
        let bytes = self.source.as_str().as_bytes();
        if self.current >= bytes.len() || self.current + 1 >= bytes.len() {
            return 0;
        }
        bytes[self.current + 1]
    }

    /// Moves the cursor over one byte and returns it.
    fn advance(&mut self) -> (r: u8)
        requires
            old(self).current < old(self).bytes().len(),
        ensures
            final(self).moved_from(old(self)),
            final(self).current == old(self).current + 1,
            r == old(self).bytes()[old(self).current as int],
    {
        let res = self.source.as_str().as_bytes()[self.current];
        self.current += 1;
        res
    }

    /// Adds the token of category `token` whose lexeme is under the cursor.
    fn add_token(&mut self, token: TokenType)
        requires
            old(self).lexeme_is_bounded(),
        ensures
            final(self).added_to(
                old(self),
                TokenView {
                    variant: token,
                    lexeme: slice_text(
                        old(self).bytes(),
                        old(self).start as int,
                        old(self).current as int,
                    ),
                    string: None,
                    number: None,
                    line: old(self).line,
                },
            ),
    {
        proof {
            encode_utf8_valid_utf8(self.source@);
            lemma_ascii_is_bounded(self.bytes(), self.start as int);
            lemma_ascii_is_bounded(self.bytes(), self.current - 1);
        }
        let text = slice(self.source.as_str(), self.start, self.current);
        let ghost before = self.scanned();
        let added = Token::new(token, text, self.line);
        self.tokens.push(added);
        assert(self.scanned() =~= before.push(added@));
    }

    /// Adds the token of category `token` whose lexeme is under the cursor,
    /// with the text of a string literal.
    fn add_string_token(&mut self, token: TokenType, string: String)
        requires
            old(self).lexeme_is_bounded(),
        ensures
            final(self).added_to(
                old(self),
                TokenView {
                    variant: token,
                    lexeme: slice_text(
                        old(self).bytes(),
                        old(self).start as int,
                        old(self).current as int,
                    ),
                    string: Some(string@),
                    number: None,
                    line: old(self).line,
                },
            ),
    {
        proof {
            encode_utf8_valid_utf8(self.source@);
            lemma_ascii_is_bounded(self.bytes(), self.start as int);
            lemma_ascii_is_bounded(self.bytes(), self.current - 1);
        }
        let text = slice(self.source.as_str(), self.start, self.current);
        let ghost before = self.scanned();
        let added = Token::new_str(token, text, self.line, string);
        self.tokens.push(added);
        assert(self.scanned() =~= before.push(added@));
    }

    /// Moves the cursor over the byte at it where that byte is `expected`.
    fn match_expected_char(&mut self, expected: u8) -> (r: bool)
        requires
            old(self).current <= old(self).bytes().len(),
        ensures
            final(self).moved_from(old(self)),
            r == follows(old(self).bytes(), old(self).current as int, expected),
            final(self).current == if r {
                old(self).current + 1
            } else {
                old(self).current as int
            },
    {
        if self.is_at_end() {
            return false;
        }
        let c = self.source.as_str().as_bytes()[self.current];
        if c != expected {
            return false;
        }
        self.current += 1;
        return true;
    }

    fn is_digit(c: u8) -> (r: bool)
        ensures
            r == is_digit(c),
    {
        c >= ZERO && c <= NINE
    }

    fn is_alpha(c: u8) -> (r: bool)
        ensures
            r == is_alpha(c),
    {
        return (c >= LOWER_A && c <= LOWER_Z) || (c >= UPPER_A && c <= UPPER_Z) || c == UNDERSCORE
    }

    fn is_alpha_numeric(c: u8) -> (r: bool)
        ensures
            r == is_alpha_numeric(c),
    {
        Scanner::is_digit(c) || Scanner::is_alpha(c)
    }
}

/// The number of number tokens among the first `to` tokens of `ts`.
pub open spec fn numbers_before(ts: Seq<TokenView>, to: int) -> nat
    decreases to,
{
    if 0 < to <= ts.len() {
        numbers_before(ts, to - 1) + if ts[to - 1].variant == TokenType::NUMBER {
            1nat
        } else {
            0nat
        }
    } else {
        0
    }
}

/// The lexemes of the number tokens among the first `to` tokens of `ts`,
/// in order.
pub open spec fn number_lexemes(ts: Seq<TokenView>, to: int) -> Seq<Seq<char>>
    decreases to,
{
    if 0 < to <= ts.len() {
        if ts[to - 1].variant == TokenType::NUMBER {
            number_lexemes(ts, to - 1).push(ts[to - 1].lexeme)
        } else {
            number_lexemes(ts, to - 1)
        }
    } else {
        Seq::empty()
    }
}

/// The token at `i` with its value: the `k`-th number token carries the
/// `k`-th of `numbers`, where there is one; every other token is as it was.
pub open spec fn valued_token(ts: Seq<TokenView>, numbers: Seq<u64>, i: int) -> TokenView {
    let k = numbers_before(ts, i);
    if ts[i].variant == TokenType::NUMBER && k < numbers.len() {
        TokenView {
            variant: ts[i].variant,
            lexeme: ts[i].lexeme,
            string: None,
            number: Some(numbers[k as int]),
            line: ts[i].line,
        }
    } else {
        ts[i]
    }
}

/// The tokens `ts` with the values of their numbers.
pub open spec fn valued(ts: Seq<TokenView>, numbers: Seq<u64>) -> Seq<TokenView> {
    Seq::new(ts.len(), |i: int| valued_token(ts, numbers, i))
}

/// The lexemes of the number tokens of `tokens`, in order: what is to be
/// decoded.
pub fn numbers_of(tokens: &Vec<Token>) -> (r: Vec<String>)
    ensures
        r@.len() == numbers_before(token_views(tokens@), tokens.len() as int),
        Seq::new(r@.len(), |i: int| r@[i]@) == number_lexemes(
            token_views(tokens@),
            tokens.len() as int,
        ),
{
    let mut r: Vec<String> = Vec::new();
    let ghost ts = token_views(tokens@);
    let mut i: usize = 0;
    while i < tokens.len()
        invariant
            i <= tokens.len(),
            ts == token_views(tokens@),
            r@.len() == numbers_before(ts, i as int),
            Seq::new(r@.len(), |j: int| r@[j]@) =~= number_lexemes(ts, i as int),
        decreases tokens.len() - i,
    {
        if tokens[i].variant == TokenType::NUMBER {
            r.push(tokens[i].lexeme.clone());
        }
        i += 1;
    }
    r
}

/// Gives the number tokens of `tokens` their values: the `k`-th number
/// token carries the `k`-th of `numbers`, where there is one.
pub fn attach_numbers(tokens: &Vec<Token>, numbers: &Vec<u64>) -> (r: Vec<Token>)
    ensures
        token_views(r@) == valued(token_views(tokens@), numbers@),
{
    let mut r: Vec<Token> = Vec::new();
    let ghost ts = token_views(tokens@);
    let mut i: usize = 0;
    let mut k: usize = 0;
    while i < tokens.len()
        invariant
            i <= tokens.len(),
            ts == token_views(tokens@),
            k <= i,
            k == numbers_before(ts, i as int),
            r@.len() == i,
            forall|j: int| 0 <= j < i ==> (#[trigger] r@[j])@ == valued_token(ts, numbers@, j),
        decreases tokens.len() - i,
    {
        let token = &tokens[i];
        if token.variant == TokenType::NUMBER {
            if k < numbers.len() {
                r.push(Token::new_int(token.variant, token.lexeme.clone(), token.line, numbers[k]));
            } else {
                r.push(token.duplicate());
            }
            k += 1;
        } else {
            r.push(token.duplicate());
        }
        i += 1;
    }
    assert(token_views(r@) =~= valued(ts, numbers@));
    r
}

} // verus!
