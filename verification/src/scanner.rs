//! The scanner: turns source text into tokens, one at a time and on demand.
//!
//! The source is read as bytes. Every byte that carries meaning outside a
//! string literal is ASCII; a string literal may hold any text and is kept
//! byte for byte.
pub mod keyword;
pub mod token;

use self::keyword::{keyword_kind, keyword_type, lemma_keyword_kind, match_keyword};
pub use self::token::{Token, TokenType, TokenView};
use vstd::prelude::*;
use vstd::string::StringSliceAdditionalSpecFns;
use vstd::utf8::{
    decode_first_scalar, decode_utf8, is_char_boundary, length_of_first_scalar, pop_first_scalar,
    valid_first_scalar, valid_utf8,
};

verus! {

/// The byte of the line feed.
pub const NEWLINE: u8 = 0x0a;

/// The byte of the space.
pub const SPACE: u8 = 0x20;

/// The byte of the tab.
pub const TAB: u8 = 0x09;

/// The byte of the carriage return.
pub const CARRIAGE_RETURN: u8 = 0x0d;

/// The byte of `"`.
pub const QUOTE: u8 = 0x22;

/// The byte of `(`.
pub const LEFT_PAREN: u8 = 0x28;

/// The byte of `)`.
pub const RIGHT_PAREN: u8 = 0x29;

/// The byte of `{`.
pub const LEFT_BRACE: u8 = 0x7b;

/// The byte of `}`.
pub const RIGHT_BRACE: u8 = 0x7d;

/// The byte of `;`.
pub const SEMICOLON: u8 = 0x3b;

/// The byte of `,`.
pub const COMMA: u8 = 0x2c;

/// The byte of `.`.
pub const DOT: u8 = 0x2e;

/// The byte of `-`.
pub const MINUS: u8 = 0x2d;

/// The byte of `+`.
pub const PLUS: u8 = 0x2b;

/// The byte of `/`.
pub const SLASH: u8 = 0x2f;

/// The byte of `*`.
pub const STAR: u8 = 0x2a;

/// The byte of `!`.
pub const BANG: u8 = 0x21;

/// The byte of `=`.
pub const EQUALS: u8 = 0x3d;

/// The byte of `<`.
pub const LESS: u8 = 0x3c;

/// The byte of `>`.
pub const GREATER: u8 = 0x3e;

/// The byte of `_`.
pub const UNDERSCORE: u8 = 0x5f;

/// A decimal digit, `0` to `9`.
pub open spec fn is_digit(b: u8) -> bool {
    0x30 <= b <= 0x39
}

/// A letter that can start an identifier: `A` to `Z`, `a` to `z`, or `_`.
pub open spec fn is_alpha(b: u8) -> bool {
    (0x41 <= b <= 0x5a) || (0x61 <= b <= 0x7a) || b == UNDERSCORE
}

/// A letter or a digit.
pub open spec fn is_alphanumeric(b: u8) -> bool {
    is_alpha(b) || is_digit(b)
}

/// Whitespace within a line: space, tab or carriage return.
pub open spec fn is_blank(b: u8) -> bool {
    b == SPACE || b == TAB || b == CARRIAGE_RETURN
}

/// The classes of bytes that a run is made of.
pub enum ByteClass {
    /// Decimal digits: the parts of a number literal.
    Digit,
    /// Letters and digits: an identifier or a reserved word.
    Alphanumeric,
    /// Any byte but the newline: what a line comment runs over.
    NotNewline,
    /// Any byte but the double quote: the inside of a string literal.
    NotQuote,
}

/// Whether a byte belongs to a class.
pub open spec fn in_class(class: ByteClass, b: u8) -> bool {
    match class {
        ByteClass::Digit => is_digit(b),
        ByteClass::Alphanumeric => is_alphanumeric(b),
        ByteClass::NotNewline => b != NEWLINE,
        ByteClass::NotQuote => b != QUOTE,
    }
}

pub fn digit(b: u8) -> (r: bool)
    ensures
        r == is_digit(b),
{
    0x30 <= b && b <= 0x39
}

pub fn alphabetic(b: u8) -> (r: bool)
    ensures
        r == is_alpha(b),
{
    (0x41 <= b && b <= 0x5a) || (0x61 <= b && b <= 0x7a) || b == UNDERSCORE
}

pub fn alphanumeric(b: u8) -> (r: bool)
    ensures
        r == is_alphanumeric(b),
{
    alphabetic(b) || digit(b)
}

/// The end of the longest run of bytes of one class that starts at `pos`: the
/// first offset from `pos` on that holds a byte outside the class, or the end
/// of the source.
pub open spec fn run_end(src: Seq<u8>, pos: int, class: ByteClass) -> int
    decreases src.len() - pos,
{
    if 0 <= pos < src.len() && in_class(class, src[pos]) {
        run_end(src, pos + 1, class)
    } else {
        pos
    }
}

/// The number of newlines among the bytes from `from` up to `to`.
pub open spec fn count_newlines(src: Seq<u8>, from: int, to: int) -> int
    decreases to - from,
{
    if from < to {
        count_newlines(src, from, to - 1) + if src[to - 1] == NEWLINE {
            1int
        } else {
            0int
        }
    } else {
        0
    }
}

/// A run ends at or after its start and within the source, every byte of it is
/// of the class, and the byte at its end is not.
pub proof fn lemma_run_end(src: Seq<u8>, pos: int, class: ByteClass)
    requires
        0 <= pos <= src.len(),
    ensures
        pos <= run_end(src, pos, class) <= src.len(),
        forall|i: int| pos <= i < run_end(src, pos, class) ==> in_class(class, #[trigger] src[i]),
        run_end(src, pos, class) < src.len() ==> !in_class(class, src[run_end(src, pos, class)]),
        pos < src.len() && in_class(class, src[pos]) ==> run_end(src, pos, class) > pos,
    decreases src.len() - pos,
{
    if pos < src.len() && in_class(class, src[pos]) {
        lemma_run_end(src, pos + 1, class);
    }
}

/// Where the next token starts, and on which line: the position and line after
/// the whitespace and line comments that begin at `pos`. A newline adds one to
/// the line. A comment starts with `//` and runs up to the next newline.
pub open spec fn skip_blank(src: Seq<u8>, pos: int, line: int) -> (int, int)
    decreases src.len() - pos,
    via skip_blank_decreases
{
    if 0 <= pos < src.len() {
        if src[pos] == NEWLINE {
            skip_blank(src, pos + 1, line + 1)
        } else if is_blank(src[pos]) {
            skip_blank(src, pos + 1, line)
        } else if src[pos] == SLASH && pos + 1 < src.len() && src[pos + 1] == SLASH {
            skip_blank(src, run_end(src, pos, ByteClass::NotNewline), line)
        } else {
            (pos, line)
        }
    } else {
        (pos, line)
    }
}

#[via_fn]
proof fn skip_blank_decreases(src: Seq<u8>, pos: int, line: int) {
    if 0 <= pos < src.len() {
        lemma_run_end(src, pos, ByteClass::NotNewline);
    }
}

/// Skipping never goes backwards or past the end, and the line grows by at
/// most the number of bytes skipped. Where it stops, a token starts or the
/// source ends.
pub proof fn lemma_skip_blank(src: Seq<u8>, pos: int, line: int)
    requires
        0 <= pos <= src.len(),
    ensures
        pos <= skip_blank(src, pos, line).0 <= src.len(),
        line <= skip_blank(src, pos, line).1 <= line + (skip_blank(src, pos, line).0 - pos),
    decreases src.len() - pos,
{
    if pos < src.len() {
        if src[pos] == NEWLINE {
            lemma_skip_blank(src, pos + 1, line + 1);
        } else if is_blank(src[pos]) {
            lemma_skip_blank(src, pos + 1, line);
        } else if src[pos] == SLASH && pos + 1 < src.len() && src[pos + 1] == SLASH {
            lemma_run_end(src, pos, ByteClass::NotNewline);
            lemma_skip_blank(src, run_end(src, pos, ByteClass::NotNewline), line);
        }
    }
}

/// The characters that the bytes from `from` up to `to` encode.
pub open spec fn lexeme(src: Seq<u8>, from: int, to: int) -> Seq<char> {
    decode_utf8(src.subrange(from, to))
}

/// The kind of a token that is one punctuation byte.
pub open spec fn punctuation(b: u8) -> Option<TokenType> {
    if b == LEFT_PAREN {
        Some(TokenType::TOKEN_LEFT_PAREN)
    } else if b == RIGHT_PAREN {
        Some(TokenType::TOKEN_RIGHT_PAREN)
    } else if b == LEFT_BRACE {
        Some(TokenType::TOKEN_LEFT_BRACE)
    } else if b == RIGHT_BRACE {
        Some(TokenType::TOKEN_RIGHT_BRACE)
    } else if b == SEMICOLON {
        Some(TokenType::TOKEN_SEMICOLON)
    } else if b == COMMA {
        Some(TokenType::TOKEN_COMMA)
    } else if b == DOT {
        Some(TokenType::TOKEN_DOT)
    } else if b == MINUS {
        Some(TokenType::TOKEN_MINUS)
    } else if b == PLUS {
        Some(TokenType::TOKEN_PLUS)
    } else if b == SLASH {
        Some(TokenType::TOKEN_SLASH)
    } else if b == STAR {
        Some(TokenType::TOKEN_STAR)
    } else {
        None
    }
}

/// For `!`, `=`, `<` and `>`: the kind of the operator alone and its kind when
/// `=` follows.
pub open spec fn operator(b: u8) -> Option<(TokenType, TokenType)> {
    if b == BANG {
        Some((TokenType::TOKEN_BANG, TokenType::TOKEN_BANG_EQUAL))
    } else if b == EQUALS {
        Some((TokenType::TOKEN_EQUAL, TokenType::TOKEN_EQUAL_EQUAL))
    } else if b == LESS {
        Some((TokenType::TOKEN_LESS, TokenType::TOKEN_LESS_EQUAL))
    } else if b == GREATER {
        Some((TokenType::TOKEN_GREATER, TokenType::TOKEN_GREATER_EQUAL))
    } else {
        None
    }
}

/// Where a number literal that starts at `start` ends: after its digits, and
/// after a fraction where a `.` with a digit behind it follows them.
pub open spec fn number_end(src: Seq<u8>, start: int) -> int {
    let whole = run_end(src, start, ByteClass::Digit);
    if whole + 1 < src.len() && src[whole] == DOT && is_digit(src[whole + 1]) {
        run_end(src, whole + 1, ByteClass::Digit)
    } else {
        whole
    }
}

/// The outcome of scanning one token: the token, and the position and line
/// that the scanner is left at.
pub struct Scanned {
    pub token: TokenView,
    pub pos: int,
    pub line: int,
}

/// A token of kind `ty` that covers the bytes from `from` up to `to`.
pub open spec fn found(src: Seq<u8>, ty: TokenType, from: int, to: int, line: int) -> Scanned {
    Scanned {
        token: TokenView { ty, raw: lexeme(src, from, to), line: line as u64 },
        pos: to,
        line,
    }
}

/// An error token that carries a diagnostic.
pub open spec fn failed(message: Seq<char>, pos: int, line: int) -> Scanned {
    Scanned {
        token: TokenView { ty: TokenType::TOKEN_ERROR, raw: message, line: line as u64 },
        pos,
        line,
    }
}

/// The token that scanning yields from position `pos` on line `line`.
pub open spec fn scan(src: Seq<u8>, pos: int, line: int) -> Scanned {
    let (start, line) = skip_blank(src, pos, line);
    if !(0 <= start < src.len()) {
        found(src, TokenType::TOKEN_EOF, start, start, line)
    } else {
        let c = src[start];
        if punctuation(c) is Some {
            found(src, punctuation(c).unwrap(), start, start + 1, line)
        } else if operator(c) is Some {
            if start + 1 < src.len() && src[start + 1] == EQUALS {
                found(src, operator(c).unwrap().1, start, start + 2, line)
            } else {
                found(src, operator(c).unwrap().0, start, start + 1, line)
            }
        } else if c == QUOTE {
            let close = run_end(src, start + 1, ByteClass::NotQuote);
            let last = line + count_newlines(src, start + 1, close);
            if close < src.len() {
                found(src, TokenType::TOKEN_STRING, start, close + 1, last)
            } else {
                failed("Invalid string literal"@, close, last)
            }
        } else if is_digit(c) {
            found(src, TokenType::TOKEN_NUMBER, start, number_end(src, start), line)
        } else if is_alpha(c) {
            let end = run_end(src, start, ByteClass::Alphanumeric);
            let ty = match keyword_kind(lexeme(src, start, end)) {
                Some(ty) => ty,
                None => TokenType::TOKEN_IDENTIFIER,
            };
            found(src, ty, start, end, line)
        } else {
            failed("Unexpected character"@, start + 1, line)
        }
    }
}

/// Scanning never goes backwards or past the end; a token other than the end
/// of the source takes at least one byte; the line never falls and stays
/// within one more than the position.
pub proof fn lemma_scan(src: Seq<u8>, pos: int, line: int)
    requires
        0 <= pos <= src.len(),
    ensures
        pos <= scan(src, pos, line).pos <= src.len(),
        scan(src, pos, line).token.ty != TokenType::TOKEN_EOF ==> pos < scan(src, pos, line).pos,
        line <= scan(src, pos, line).line <= line + (scan(src, pos, line).pos - pos),
{
    lemma_skip_blank(src, pos, line);
    let (start, line1) = skip_blank(src, pos, line);
    if 0 <= start < src.len() {
        let c = src[start];
        lemma_run_end(src, start + 1, ByteClass::NotQuote);
        lemma_count_newlines(src, start + 1, run_end(src, start + 1, ByteClass::NotQuote));
        lemma_run_end(src, start, ByteClass::Digit);
        let whole = run_end(src, start, ByteClass::Digit);
        if whole + 1 < src.len() {
            lemma_run_end(src, whole + 1, ByteClass::Digit);
        }
        lemma_run_end(src, start, ByteClass::Alphanumeric);
    }
}

/// A stretch holds no more newlines than bytes.
pub proof fn lemma_count_newlines(src: Seq<u8>, from: int, to: int)
    ensures
        0 <= count_newlines(src, from, to),
        from <= to ==> count_newlines(src, from, to) <= to - from,
        from >= to ==> count_newlines(src, from, to) == 0,
    decreases to - from,
{
    if from < to {
        lemma_count_newlines(src, from, to - 1);
    }
}

/// In valid UTF-8 an ASCII byte is a whole character: a character starts at it
/// and another starts, or the text ends, right behind it.
proof fn lemma_ascii_boundary(bytes: Seq<u8>, i: int)
    requires
        valid_utf8(bytes),
        0 <= i < bytes.len(),
        bytes[i] <= 0x7f,
    ensures
        is_char_boundary(bytes, i),
        is_char_boundary(bytes, i + 1),
    decreases bytes.len(),
{
    vstd::utf8::is_char_boundary_iff_not_is_continuation_byte(bytes, i);
    let width = length_of_first_scalar(bytes);
    let rest = pop_first_scalar(bytes);
    if i < width {
        assert(i == 0);
        assert(width == 1);
        reveal_with_fuel(is_char_boundary, 2);
    } else {
        assert(rest[i - width] == bytes[i]);
        lemma_ascii_boundary(rest, i - width);
        reveal_with_fuel(is_char_boundary, 2);
    }
}

/// ASCII bytes are valid UTF-8 and encode one character each, the character
/// with the byte's number.
proof fn lemma_ascii_decode(bytes: Seq<u8>)
    requires
        forall|k: int| 0 <= k < bytes.len() ==> bytes[k] <= 0x7f,
    ensures
        valid_utf8(bytes),
        decode_utf8(bytes).len() == bytes.len(),
        forall|k: int| 0 <= k < bytes.len() ==> decode_utf8(bytes)[k] == bytes[k] as char,
    decreases bytes.len(),
{
    if bytes.len() > 0 {
        let rest = pop_first_scalar(bytes);
        let b = bytes[0];
        assert(b <= 0x7f ==> (b & 0x7f) == b) by (bit_vector);
        assert(valid_first_scalar(bytes));
        assert(rest =~= bytes.subrange(1, bytes.len() as int));
        assert forall|k: int| 0 <= k < rest.len() implies rest[k] <= 0x7f by {
            assert(rest[k] == bytes[k + 1]);
        }
        lemma_ascii_decode(rest);
        assert(decode_first_scalar(bytes) == b as u32);
        assert forall|k: int| 0 <= k < bytes.len() implies decode_utf8(bytes)[k]
            == bytes[k] as char by {
            if k > 0 {
                assert(decode_utf8(rest)[k - 1] == rest[k - 1] as char);
            }
        }
    }
}

/// In a word whose bytes are all ASCII, the characters are the bytes.
proof fn lemma_ascii_lexeme(src: Seq<u8>, from: int, to: int)
    requires
        0 <= from <= to <= src.len(),
        forall|k: int| from <= k < to ==> src[k] <= 0x7f,
    ensures
        lexeme(src, from, to).len() == to - from,
        forall|k: int| 0 <= k < to - from ==> lexeme(src, from, to)[k] == src[from + k] as char,
{
    lemma_ascii_decode(src.subrange(from, to));
}

/// A string token holds at least its two quotes.
pub proof fn lemma_string_token(src: Seq<u8>, pos: int, line: int)
    requires
        valid_utf8(src),
        0 <= pos <= src.len(),
    ensures
        scan(src, pos, line).token.ty == TokenType::TOKEN_STRING ==> scan(
            src,
            pos,
            line,
        ).token.raw.len() >= 2,
{
    lemma_skip_blank(src, pos, line);
    let (start, line1) = skip_blank(src, pos, line);
    if 0 <= start < src.len() && src[start] == QUOTE {
        let close = run_end(src, start + 1, ByteClass::NotQuote);
        lemma_run_end(src, start + 1, ByteClass::NotQuote);
        if close < src.len() {
            let head = src.subrange(0, close + 1);
            let sub = src.subrange(start, close + 1);
            lemma_ascii_boundary(src, start);
            lemma_ascii_boundary(src, close);
            vstd::utf8::valid_utf8_split(src, close + 1);
            vstd::utf8::is_char_boundary_iff_not_is_continuation_byte(head, start);
            vstd::utf8::valid_utf8_split(head, start);
            assert(head.subrange(start, head.len() as int) =~= sub);
            assert(valid_utf8(sub));
            assert(sub[0] == QUOTE);
            let rest = pop_first_scalar(sub);
            assert(rest.len() == sub.len() - 1);
            assert(valid_utf8(rest));
            assert(decode_utf8(rest).len() >= 1);
            assert(decode_utf8(sub).len() >= 2);
        }
    }
}

/// The state of a scanner: the bytes of its source, how far it has read, and
/// the line it is on.
pub struct ScannerView {
    pub source: Seq<u8>,
    pub current: int,
    pub line: int,
}

/// A scanner over one source text.
pub struct Scanner<'a> {
    source: &'a str,
    start: usize,
    current: usize,
    line: u64,
}

impl<'a> View for Scanner<'a> {
    type V = ScannerView;

    closed spec fn view(&self) -> ScannerView {
        ScannerView {
            source: self.source.spec_bytes(),
            current: self.current as int,
            line: self.line as int,
        }
    }
}

impl<'a> Scanner<'a> {
    /// The position is within the source, and the line is at least 1 and at
    /// most one more than the position, so that it can always be counted on.
    pub open spec fn well_formed(&self) -> bool {
        &&& 0 <= self@.current <= self@.source.len()
        &&& 1 <= self@.line <= self@.current + 1
        &&& self@.source.len() < u64::MAX
        &&& valid_utf8(self@.source)
    }

    /// A scanner at the start of `s`, on line 1.
    pub fn new(s: &'a str) -> (r: Self)
        requires
            s.spec_bytes().len() < u64::MAX,
        ensures
            r.well_formed(),
            r@ == (ScannerView { source: s.spec_bytes(), current: 0, line: 1 }),
    {
        proof {
            vstd::utf8::encode_utf8_valid_utf8(s@);
        }
        Scanner { source: s, start: 0, current: 0, line: 1 }
    }

    /// Reads the next token. At the end of the source every call gives the
    /// end-of-source token.
    pub fn scan_token(&mut self) -> (t: Token<'a>)
        requires
            old(self).well_formed(),
        ensures
            final(self).well_formed(),
            final(self)@.source == old(self)@.source,
            t@ == scan(old(self)@.source, old(self)@.current, old(self)@.line).token,
            final(self)@.current == scan(old(self)@.source, old(self)@.current, old(self)@.line).pos,
            final(self)@.line == scan(old(self)@.source, old(self)@.current, old(self)@.line).line,
    {
        let ghost src = self@.source;
        proof {
            lemma_scan(src, self@.current, self@.line);
        }
        self.skip_whites();
        self.start = self.current;
        if self.is_at_end() {
            proof {
                vstd::utf8::is_char_boundary_start_end_of_seq(src);
            }
            return self.mk_token(TokenType::TOKEN_EOF);
        }
        let c = self.advance();
        let ghost start = self.start as int;
        proof {
            if c <= 0x7f {
                lemma_ascii_boundary(src, start);
            }
        }
        match c {
            LEFT_PAREN => self.mk_token(TokenType::TOKEN_LEFT_PAREN),
            RIGHT_PAREN => self.mk_token(TokenType::TOKEN_RIGHT_PAREN),
            LEFT_BRACE => self.mk_token(TokenType::TOKEN_LEFT_BRACE),
            RIGHT_BRACE => self.mk_token(TokenType::TOKEN_RIGHT_BRACE),
            SEMICOLON => self.mk_token(TokenType::TOKEN_SEMICOLON),
            COMMA => self.mk_token(TokenType::TOKEN_COMMA),
            DOT => self.mk_token(TokenType::TOKEN_DOT),
            MINUS => self.mk_token(TokenType::TOKEN_MINUS),
            PLUS => self.mk_token(TokenType::TOKEN_PLUS),
            SLASH => self.mk_token(TokenType::TOKEN_SLASH),
            STAR => self.mk_token(TokenType::TOKEN_STAR),
            BANG => {
                let match_equal = self.match_advance(EQUALS);
                proof {
                    if match_equal {
                        lemma_ascii_boundary(src, start + 1);
                    }
                }
                self.mk_token(
                    if match_equal {
                        TokenType::TOKEN_BANG_EQUAL
                    } else {
                        TokenType::TOKEN_BANG
                    },
                )
            },
            EQUALS => {
                let match_equal = self.match_advance(EQUALS);
                proof {
                    if match_equal {
                        lemma_ascii_boundary(src, start + 1);
                    }
                }
                self.mk_token(
                    if match_equal {
                        TokenType::TOKEN_EQUAL_EQUAL
                    } else {
                        TokenType::TOKEN_EQUAL
                    },
                )
            },
            LESS => {
                let match_equal = self.match_advance(EQUALS);
                proof {
                    if match_equal {
                        lemma_ascii_boundary(src, start + 1);
                    }
                }
                self.mk_token(
                    if match_equal {
                        TokenType::TOKEN_LESS_EQUAL
                    } else {
                        TokenType::TOKEN_LESS
                    },
                )
            },
            GREATER => {
                let match_equal = self.match_advance(EQUALS);
                proof {
                    if match_equal {
                        lemma_ascii_boundary(src, start + 1);
                    }
                }
                self.mk_token(
                    if match_equal {
                        TokenType::TOKEN_GREATER_EQUAL
                    } else {
                        TokenType::TOKEN_GREATER
                    },
                )
            },
            QUOTE => match self.scan_string() {
                Some(token) => token,
                None => self.mk_error_token("Invalid string literal"),
            },
            c => {
                if digit(c) {
                    self.scan_number()
                } else if alphabetic(c) {
                    self.scan_identifier()
                } else {
                    self.mk_error_token("Unexpected character")
                }
            },
        }
    }

    /// Skips whitespace and line comments, counting newlines.
    fn skip_whites(&mut self)
        requires
            old(self).well_formed(),
        ensures
            final(self).well_formed(),
            final(self).source == old(self).source,
            (final(self)@.current, final(self)@.line) == skip_blank(
                old(self)@.source,
                old(self)@.current,
                old(self)@.line,
            ),
    {
        let ghost src = self@.source;
        loop
            invariant
                self.well_formed(),
                self.source == old(self).source,
                src == self@.source,
                skip_blank(src, self@.current, self@.line) == skip_blank(
                    src,
                    old(self)@.current,
                    old(self)@.line,
                ),
            decreases src.len() - self@.current,
        {
            match self.peek() {
                Some(NEWLINE) => {
                    self.line += 1;
                    self.advance();
                },
                Some(SLASH) => {
                    if self.peek_next() != Some(SLASH) {
                        return ;
                    }
                    proof {
                        lemma_run_end(src, self@.current, ByteClass::NotNewline);
                    }
                    self.skip_line_comment();
                },
                Some(c) => {
                    if c == SPACE || c == TAB || c == CARRIAGE_RETURN {
                        self.advance();
                    } else {
                        return ;
                    }
                },
                None => {
                    return ;
                },
            }
        }
    }

    /// Reads the rest of a string literal, whose opening quote has been read.
    /// `None` where the source ends before the closing quote.
    fn scan_string(&mut self) -> (r: Option<Token<'a>>)
        requires
            old(self).well_formed(),
            old(self).start < old(self)@.current,
            old(self)@.source[old(self).start as int] == QUOTE,
            old(self)@.current == old(self).start + 1,
        ensures
            final(self).well_formed(),
            final(self).source == old(self).source,
            final(self).start == old(self).start,
            ({
                let src = old(self)@.source;
                let from = old(self)@.current;
                let close = run_end(src, from, ByteClass::NotQuote);
                let last = old(self)@.line + count_newlines(src, from, close);
                &&& final(self)@.line == last
                &&& match r {
                    Some(token) => {
                        &&& close < src.len()
                        &&& final(self)@.current == close + 1
                        &&& token@ == found(
                            src,
                            TokenType::TOKEN_STRING,
                            old(self).start as int,
                            close + 1,
                            last,
                        ).token
                    },
                    None => close == src.len() && final(self)@.current == close,
                }
            }),
    {
        let ghost src = self@.source;
        let ghost from = self@.current;
        let ghost line = self@.line;
        proof {
            lemma_run_end(src, from, ByteClass::NotQuote);
            lemma_ascii_boundary(src, self.start as int);
        }
        loop
            invariant
                self.well_formed(),
                self.source == old(self).source,
                self.start == old(self).start,
                src == self@.source,
                from <= self@.current,
                run_end(src, self@.current, ByteClass::NotQuote) == run_end(
                    src,
                    from,
                    ByteClass::NotQuote,
                ),
                self@.line == line + count_newlines(src, from, self@.current),
                from == old(self)@.current,
                line == old(self)@.line,
                is_char_boundary(src, self.start as int),
                self.start < from,
            decreases src.len() - self@.current,
        {
            proof {
                lemma_count_newlines(src, from, self@.current);
            }
            let c = match self.peek() {
                Some(c) => c,
                None => {
                    return None;
                },
            };
            if c == NEWLINE {
                self.line += 1;
            }
            if c == QUOTE {
                proof {
                    lemma_ascii_boundary(src, self@.current);
                }
                self.advance();
                return Some(self.mk_token(TokenType::TOKEN_STRING));
            }
            self.advance();
        }
    }

    /// Skips a line comment: from the `//` that the scanner stands at up to the
    /// newline or the end of the source.
    #[inline]
    fn skip_line_comment(&mut self)
        requires
            old(self).well_formed(),
        ensures
            final(self).well_formed(),
            final(self).source == old(self).source,
            final(self)@.line == old(self)@.line,
            final(self)@.current == run_end(
                old(self)@.source,
                old(self)@.current,
                ByteClass::NotNewline,
            ),
    {
        let ghost src = self@.source;
        let ghost from = self@.current;
        loop
            invariant
                self.well_formed(),
                self.source == old(self).source,
                src == self@.source,
                self@.line == old(self)@.line,
                from <= self@.current,
                run_end(src, self@.current, ByteClass::NotNewline) == run_end(
                    src,
                    from,
                    ByteClass::NotNewline,
                ),
                from == old(self)@.current,
            decreases src.len() - self@.current,
        {
            if self.is_at_end() {
                return ;
            }
            match self.peek() {
                Some(NEWLINE) => {
                    return ;
                },
                None => {
                    return ;
                },
                _ => {
                    self.advance();
                },
            }
        }
    }

    /// Reads the rest of a number literal, whose first digit has been read.
    fn scan_number(&mut self) -> (t: Token<'a>)
        requires
            old(self).well_formed(),
            old(self)@.current == old(self).start + 1,
            is_digit(old(self)@.source[old(self).start as int]),
        ensures
            final(self).well_formed(),
            final(self).source == old(self).source,
            final(self)@.line == old(self)@.line,
            final(self)@.current == number_end(old(self)@.source, old(self).start as int),
            t@ == found(
                old(self)@.source,
                TokenType::TOKEN_NUMBER,
                old(self).start as int,
                number_end(old(self)@.source, old(self).start as int),
                old(self)@.line,
            ).token,
    {
        let ghost src = self@.source;
        let ghost start = self.start as int;
        proof {
            lemma_run_end(src, start, ByteClass::Digit);
            lemma_run_end(src, start + 1, ByteClass::Digit);
            lemma_ascii_boundary(src, start);
        }
        self.consume_while(digit, Ghost(ByteClass::Digit));
        let ghost whole = self@.current;
        if self.peek() == Some(DOT) {
            let after = self.peek_next();
            let fraction = match after {
                Some(b) => digit(b),
                None => false,
            };
            if fraction {
                self.advance();
                proof {
                    lemma_run_end(src, whole + 1, ByteClass::Digit);
                }
                self.consume_while(digit, Ghost(ByteClass::Digit));
            }
        }
        proof {
            assert(self@.current == number_end(src, start));
            lemma_ascii_boundary(src, self@.current - 1);
        }
        self.mk_token(TokenType::TOKEN_NUMBER)
    }

    /// Reads the rest of a word, whose first letter has been read, and tells a
    /// reserved word from an identifier.
    fn scan_identifier(&mut self) -> (t: Token<'a>)
        requires
            old(self).well_formed(),
            old(self)@.current == old(self).start + 1,
            is_alpha(old(self)@.source[old(self).start as int]),
        ensures
            final(self).well_formed(),
            final(self).source == old(self).source,
            final(self)@.line == old(self)@.line,
            final(self)@.current == run_end(
                old(self)@.source,
                old(self).start as int,
                ByteClass::Alphanumeric,
            ),
            t@ == found(
                old(self)@.source,
                match keyword_kind(
                    lexeme(old(self)@.source, old(self).start as int, final(self)@.current),
                ) {
                    Some(ty) => ty,
                    None => TokenType::TOKEN_IDENTIFIER,
                },
                old(self).start as int,
                final(self)@.current,
                old(self)@.line,
            ).token,
    {
        let ghost src = self@.source;
        let ghost start = self.start as int;
        proof {
            lemma_run_end(src, start, ByteClass::Alphanumeric);
            lemma_run_end(src, start + 1, ByteClass::Alphanumeric);
            lemma_ascii_boundary(src, start);
        }
        self.consume_while(alphanumeric, Ghost(ByteClass::Alphanumeric));
        proof {
            lemma_ascii_boundary(src, self@.current - 1);
            lemma_ascii_lexeme(src, start, self@.current);
        }
        let ident = self.mk_token(TokenType::TOKEN_IDENTIFIER).raw;
        let kw_len = match_keyword(ident.chars());
        proof {
            broadcast use vstd::string::group_string_axioms;

        }
        proof {
            lemma_keyword_kind(ident@);
        }
        let ty = if kw_len == Some(self.current - self.start) {
            keyword_type(ident)
        } else {
            TokenType::TOKEN_IDENTIFIER
        };
        self.mk_token(ty)
    }

    /// Reads on while the next byte is of the class that `f` tests.
    fn consume_while<F>(&mut self, f: F, Ghost(class): Ghost<ByteClass>) where
        F: Fn(u8) -> bool,

        requires
            old(self).well_formed(),
            forall|b: u8| call_requires(f, (b,)),
            forall|b: u8, r: bool| call_ensures(f, (b,), r) ==> r == in_class(class, b),
        ensures
            final(self).well_formed(),
            final(self).source == old(self).source,
            final(self).start == old(self).start,
            final(self)@.line == old(self)@.line,
            final(self)@.current == run_end(old(self)@.source, old(self)@.current, class),
    {
        let ghost src = self@.source;
        loop
            invariant
                self.well_formed(),
                self.source == old(self).source,
                self.start == old(self).start,
                self@.line == old(self)@.line,
                src == self@.source,
                old(self)@.current <= self@.current,
                run_end(src, self@.current, class) == run_end(src, old(self)@.current, class),
                forall|b: u8| call_requires(f, (b,)),
                forall|b: u8, r: bool| call_ensures(f, (b,), r) ==> r == in_class(class, b),
            decreases src.len() - self@.current,
        {
            match self.peek() {
                Some(c) => {
                    if f(c) {
                        self.advance();
                    } else {
                        return ;
                    }
                },
                None => {
                    return ;
                },
            }
        }
    }

    /// Whether the whole source has been read.
    fn is_at_end(&self) -> (r: bool)
        ensures
            r == (self@.current >= self@.source.len()),
    {
        self.current >= self.source.as_bytes().len()
    }

    /// An error token with a diagnostic, on the current line.
    fn mk_error_token(&self, msg: &'static str) -> (t: Token<'a>)
        ensures
            t@ == failed(msg@, self@.current, self@.line).token,
    {
        Token::new(TokenType::TOKEN_ERROR, msg, self.line)
    }

    /// A token of the given kind over the bytes read since the token's start.
    fn mk_token(&self, ty: TokenType) -> (t: Token<'a>)
        requires
            self.well_formed(),
            self.start <= self@.current,
            is_char_boundary(self@.source, self.start as int),
            is_char_boundary(self@.source, self@.current),
        ensures
            t@ == found(self@.source, ty, self.start as int, self@.current, self@.line).token,
            t.raw.spec_bytes() == self@.source.subrange(self.start as int, self@.current),
    {
        let ghost src = self@.source;
        let (head, _) = self.source.split_at(self.current);
        proof {
            vstd::utf8::valid_utf8_split(src, self.current as int);
            assert(head.spec_bytes() == src.subrange(0, self.current as int));
            if self.start < self.current {
                vstd::utf8::is_char_boundary_iff_not_is_continuation_byte(src, self.start as int);
                vstd::utf8::is_char_boundary_iff_not_is_continuation_byte(
                    head.spec_bytes(),
                    self.start as int,
                );
            } else {
                vstd::utf8::is_char_boundary_start_end_of_seq(head.spec_bytes());
            }
        }
        let (_, raw) = head.split_at(self.start);
        proof {
            assert(raw.spec_bytes() =~= src.subrange(self.start as int, self.current as int));
            vstd::utf8::encode_utf8_decode_utf8(raw@);
        }
        Token::new(ty, raw, self.line)
    }

    /// The next byte, if there is one.
    #[inline]
    fn peek(&self) -> (r: Option<u8>)
        requires
            self.well_formed(),
        ensures
            r == (if self@.current < self@.source.len() {
                Some(self@.source[self@.current])
            } else {
                None
            }),
    {
        let bytes = self.source.as_bytes();
        if self.current < bytes.len() {
            Some(bytes[self.current])
        } else {
            None
        }
    }

    /// The byte after the next, if there is one.
    #[inline]
    fn peek_next(&self) -> (r: Option<u8>)
        requires
            self.well_formed(),
        ensures
            r == (if self@.current + 1 < self@.source.len() {
                Some(self@.source[self@.current + 1])
            } else {
                None
            }),
    {
        let bytes = self.source.as_bytes();
        if self.current < bytes.len() && self.current + 1 < bytes.len() {
            Some(bytes[self.current + 1])
        } else {
            None
        }
    }

    /// Reads one byte.
    fn advance(&mut self) -> (c: u8)
        requires
            old(self)@.current < old(self)@.source.len(),
        ensures
            c == old(self)@.source[old(self)@.current],
            final(self).source == old(self).source,
            final(self).start == old(self).start,
            final(self).line == old(self).line,
            final(self)@.current == old(self)@.current + 1,
    {
        let bytes = self.source.as_bytes();
        let c = bytes[self.current];
        self.current += 1;
        c
    }

    /// Reads the next byte if it is the expected one.
    fn match_advance(&mut self, expected: u8) -> (r: bool)
        requires
            old(self).well_formed(),
        ensures
            final(self).well_formed(),
            final(self).source == old(self).source,
            final(self).start == old(self).start,
            final(self).line == old(self).line,
            r == (old(self)@.current < old(self)@.source.len() && old(self)@.source[old(
                self,
            )@.current] == expected),
            final(self)@.current == old(self)@.current + if r {
                1int
            } else {
                0int
            },
    {
        if self.is_at_end() {
            return false;
        }
        let matched = match self.peek() {
            Some(c) => c == expected,
            None => false,
        };
        if matched {
            self.advance();
        }
        matched
    }
}

/// The text of each number literal from position `pos` on, in source order,
/// up to the end of the source or the first error token.
pub open spec fn number_lexemes(src: Seq<u8>, pos: int, line: int) -> Seq<Seq<char>>
    decreases src.len() - pos,
    via number_lexemes_decreases
{
    let next = scan(src, pos, line);
    if !(0 <= pos <= src.len()) || next.token.ty == TokenType::TOKEN_EOF || next.token.ty
        == TokenType::TOKEN_ERROR {
        Seq::empty()
    } else if next.token.ty == TokenType::TOKEN_NUMBER {
        seq![next.token.raw] + number_lexemes(src, next.pos, next.line)
    } else {
        number_lexemes(src, next.pos, next.line)
    }
}

#[via_fn]
proof fn number_lexemes_decreases(src: Seq<u8>, pos: int, line: int) {
    if 0 <= pos <= src.len() {
        lemma_scan(src, pos, line);
    }
}

/// The characters of each of a sequence of strings.
pub open spec fn texts(list: Seq<&str>) -> Seq<Seq<char>> {
    Seq::new(list.len(), |i: int| list[i]@)
}

/// The number literals of a source, in source order, up to its end or its
/// first error token: what the compiler needs the binary64 patterns of.
pub fn number_literals<'a>(source: &'a str) -> (r: Vec<&'a str>)
    requires
        source.spec_bytes().len() < u64::MAX,
    ensures
        texts(r@) == number_lexemes(source.spec_bytes(), 0, 1),
{
    let mut scanner = Scanner::new(source);
    let mut out: Vec<&'a str> = Vec::new();
    let ghost src = source.spec_bytes();
    proof {
        assert(texts(out@) + number_lexemes(src, 0, 1) =~= number_lexemes(src, 0, 1));
    }
    loop
        invariant
            scanner.well_formed(),
            scanner@.source == src,
            src == source.spec_bytes(),
            number_lexemes(src, 0, 1) == texts(out@) + number_lexemes(
                src,
                scanner@.current,
                scanner@.line,
            ),
        decreases src.len() - scanner@.current,
    {
        let ghost before = out@;
        let ghost pos = scanner@.current;
        let ghost line = scanner@.line;
        proof {
            lemma_scan(src, pos, line);
        }
        let token = scanner.scan_token();
        if token.ty == TokenType::TOKEN_EOF || token.ty == TokenType::TOKEN_ERROR {
            proof {
                assert(texts(out@) + Seq::<Seq<char>>::empty() =~= texts(out@));
            }
            return out;
        }
        if token.ty == TokenType::TOKEN_NUMBER {
            out.push(token.raw);
            proof {
                assert(texts(out@) =~= texts(before).push(token@.raw));
                assert(texts(before) + (seq![token@.raw] + number_lexemes(
                    src,
                    scanner@.current,
                    scanner@.line,
                )) =~= texts(out@) + number_lexemes(src, scanner@.current, scanner@.line));
            }
        }
    }
}

} // verus!
