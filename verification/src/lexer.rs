//! Lexical analysis: source text to tokens.
//!
//! `spec_lex_from` is the mathematical tokenizer; `Lexer::scan_tokens`
//! is proved to return exactly its result, so lexing is a function of
//! the source text alone.
use vstd::prelude::*;
use crate::token::{Token, TokenType, Literal, SpecToken, SpecLiteral, opt_literal_view,
    tokens_view};
use crate::number::{Num, is_digit_char, literal_mant, in_mantissa_range, all_digits,
    mantissa_of_literal};
use crate::text::{str_to_chars, chars_to_string};

verus! {

pub open spec fn is_alpha_char(c: char) -> bool {
    ('a' <= c && c <= 'z') || ('A' <= c && c <= 'Z') || c == '_'
}

pub open spec fn is_alnum_char(c: char) -> bool {
    is_alpha_char(c) || is_digit_char(c)
}

/// First position at or after `pos` that is not an identifier character.
pub open spec fn ident_end(src: Seq<char>, pos: int) -> int
    decreases src.len() - pos,
{
    if pos < src.len() && is_alnum_char(src[pos]) {
        ident_end(src, pos + 1)
    } else {
        pos
    }
}

/// First position at or after `pos` that is not a digit.
pub open spec fn digits_end(src: Seq<char>, pos: int) -> int
    decreases src.len() - pos,
{
    if pos < src.len() && is_digit_char(src[pos]) {
        digits_end(src, pos + 1)
    } else {
        pos
    }
}

/// First newline at or after `pos`, or the end of the source.
pub open spec fn comment_end(src: Seq<char>, pos: int) -> int
    decreases src.len() - pos,
{
    if pos < src.len() && src[pos] != '\n' {
        comment_end(src, pos + 1)
    } else {
        pos
    }
}

/// First `'"'` at or after `pos`, or the end of the source.
pub open spec fn string_end(src: Seq<char>, pos: int) -> int
    decreases src.len() - pos,
{
    if pos < src.len() && src[pos] != '"' {
        string_end(src, pos + 1)
    } else {
        pos
    }
}

pub open spec fn newlines_between(src: Seq<char>, a: int, b: int) -> int
    decreases b - a,
{
    if a < b {
        (if src[a] == '\n' {
            1int
        } else {
            0int
        }) + newlines_between(src, a + 1, b)
    } else {
        0
    }
}

proof fn lemma_ident_end(src: Seq<char>, pos: int)
    requires
        pos <= src.len(),
    ensures
        pos <= ident_end(src, pos) <= src.len(),
        forall|k: int| pos <= k < ident_end(src, pos) ==> is_alnum_char(#[trigger] src[k]),
        ident_end(src, pos) < src.len() ==> !is_alnum_char(src[ident_end(src, pos)]),
    decreases src.len() - pos,
{
    if pos < src.len() && is_alnum_char(src[pos]) {
        lemma_ident_end(src, pos + 1);
    }
}

pub proof fn lemma_digits_end(src: Seq<char>, pos: int)
    requires
        pos <= src.len(),
    ensures
        pos <= digits_end(src, pos) <= src.len(),
        forall|k: int| pos <= k < digits_end(src, pos) ==> is_digit_char(#[trigger] src[k]),
        digits_end(src, pos) < src.len() ==> !is_digit_char(src[digits_end(src, pos)]),
    decreases src.len() - pos,
{
    if pos < src.len() && is_digit_char(src[pos]) {
        lemma_digits_end(src, pos + 1);
    }
}

proof fn lemma_comment_end(src: Seq<char>, pos: int)
    requires
        pos <= src.len(),
    ensures
        pos <= comment_end(src, pos) <= src.len(),
    decreases src.len() - pos,
{
    if pos < src.len() && src[pos] != '\n' {
        lemma_comment_end(src, pos + 1);
    }
}

proof fn lemma_string_end(src: Seq<char>, pos: int)
    requires
        pos <= src.len(),
    ensures
        pos <= string_end(src, pos) <= src.len(),
        string_end(src, pos) < src.len() ==> src[string_end(src, pos)] == '"',
    decreases src.len() - pos,
{
    if pos < src.len() && src[pos] != '"' {
        lemma_string_end(src, pos + 1);
    }
}

proof fn lemma_newlines_bounds(src: Seq<char>, a: int, b: int)
    ensures
        0 <= newlines_between(src, a, b),
        newlines_between(src, a, b) <= (if b >= a {
            b - a
        } else {
            0
        }),
    decreases b - a,
{
    if a < b {
        lemma_newlines_bounds(src, a + 1, b);
    }
}

proof fn lemma_newlines_snoc(src: Seq<char>, a: int, b: int)
    requires
        a <= b,
    ensures
        newlines_between(src, a, b + 1) == newlines_between(src, a, b) + (if src[b] == '\n' {
            1int
        } else {
            0int
        }),
    decreases b - a,
{
    if a < b {
        lemma_newlines_snoc(src, a + 1, b);
        assert(newlines_between(src, a, b + 1) == (if src[a] == '\n' {
            1int
        } else {
            0int
        }) + newlines_between(src, a + 1, b + 1));
    } else {
        assert(newlines_between(src, a, b + 1) == (if src[a] == '\n' {
            1int
        } else {
            0int
        }) + newlines_between(src, a + 1, b + 1));
        assert(newlines_between(src, a + 1, b + 1) == 0);
    }
}

/// Escape resolution inside a string literal: `\n \t \r \\ \"` are
/// decoded; any other escaped character is the error. A trailing lone
/// backslash stands for itself.
pub open spec fn unescape(s: Seq<char>) -> Result<Seq<char>, char>
    decreases s.len(),
{
    if s.len() == 0 {
        Ok(Seq::empty())
    } else if s[0] == '\\' && s.len() >= 2 {
        let e = s[1];
        if e == 'n' || e == 't' || e == 'r' || e == '\\' || e == '"' {
            let d = if e == 'n' {
                '\n'
            } else if e == 't' {
                '\t'
            } else if e == 'r' {
                '\r'
            } else if e == '\\' {
                '\\'
            } else {
                '"'
            };
            match unescape(s.skip(2)) {
                Ok(r) => Ok(seq![d] + r),
                Err(c) => Err(c),
            }
        } else {
            Err(e)
        }
    } else {
        match unescape(s.skip(1)) {
            Ok(r) => Ok(seq![s[0]] + r),
            Err(c) => Err(c),
        }
    }
}

/// Keyword table; two spellings name the array keyword.
pub open spec fn keyword_kind(s: Seq<char>) -> TokenType {
    if s.len() == 2 && s[0] == 't' && s[1] == 's' {
        TokenType::Ts
    } else if s.len() == 2 && s[0] == 'y' && s[1] == 'o' {
        TokenType::Yo
    } else if s.len() == 3 && s[0] == 'y' && s[1] == 'a' && s[2] == 'p' {
        TokenType::Yap
    } else if s.len() == 3 && s[0] == 'p' && s[1] == 'm' && s[2] == 'o' {
        TokenType::Pmo
    } else if s.len() == 4 && s[0] == 'g' && s[1] == 'y' && s[2] == 'a' && s[3] == 't' {
        TokenType::Gyat
    } else if s.len() == 5 && s[0] == 'g' && s[1] == 'y' && s[2] == 'a' && s[3] == 't' && s[4]
        == 't' {
        TokenType::Gyat
    } else if s.len() == 4 && s[0] == 'h' && s[1] == 'a' && s[2] == 'w' && s[3] == 'k' {
        TokenType::Hawk
    } else if s.len() == 4 && s[0] == 't' && s[1] == 'u' && s[2] == 'a' && s[3] == 'h' {
        TokenType::Tuah
    } else if s.len() == 4 && s[0] == 'g' && s[1] == 'o' && s[2] == 'o' && s[3] == 'n' {
        TokenType::Goon
    } else if s.len() == 4 && s[0] == 'e' && s[1] == 'd' && s[2] == 'g' && s[3] == 'e' {
        TokenType::Edge
    } else if s.len() == 4 && s[0] == 'y' && s[1] == 'e' && s[2] == 'e' && s[3] == 't' {
        TokenType::Yeet
    } else if s.len() == 5 && s[0] == 's' && s[1] == 'y' && s[2] == 'b' && s[3] == 'a' && s[4]
        == 'u' {
        TokenType::Sybau
    } else if s.len() == 4 && s[0] == 'g' && s[1] == 'u' && s[2] == 'r' && s[3] == 't' {
        TokenType::Gurt
    } else {
        TokenType::Identifier
    }
}

#[derive(Clone, Copy, PartialEq, Eq, Structural, Debug)]
pub enum LexErrorKind {
    UnexpectedChar(char),
    UnterminatedString,
    InvalidEscape(char),
    NumberTooLarge,
}

#[derive(Debug)]
pub struct LexError {
    pub kind: LexErrorKind,
    pub line: usize,
}

pub struct SpecLexError {
    pub kind: LexErrorKind,
    pub line: int,
}

impl View for LexError {
    type V = SpecLexError;

    open spec fn view(&self) -> SpecLexError {
        SpecLexError { kind: self.kind, line: self.line as int }
    }
}

impl Clone for LexError {
    fn clone(&self) -> (r: Self)
        ensures
            r@ == self@,
    {
        LexError { kind: self.kind, line: self.line }
    }
}

/// Outcome of scanning at one position: a token, skipped text, or a
/// failure; successful steps carry the next position and line.
pub enum SpecStep {
    Tok(SpecToken, int, int),
    Skip(int, int),
    Fail(SpecLexError),
}

pub open spec fn tok_at(
    tt: TokenType,
    src: Seq<char>,
    start: int,
    end: int,
    lit: Option<SpecLiteral>,
    line: int,
) -> SpecToken {
    SpecToken { token_type: tt, lexeme: src.subrange(start, end), literal: lit, line }
}

/// Scan a numeric literal. The payload keeps the whole part and the
/// first six fractional digits exactly; fractional digits beyond the
/// sixth are consumed but do not change the value (the number model
/// carries six fractional digits). A literal whose value leaves the
/// mantissa range is the number fault.
pub open spec fn spec_scan_number(src: Seq<char>, pos: int, line: int) -> SpecStep {
    let e1 = digits_end(src, pos + 1);
    let has_frac = e1 + 1 < src.len() && src[e1] == '.' && is_digit_char(src[e1 + 1]);
    let end = if has_frac {
        digits_end(src, e1 + 2)
    } else {
        e1
    };
    let fs = if has_frac {
        e1 + 1
    } else {
        e1
    };
    let m = literal_mant(src.subrange(pos, e1), src.subrange(fs, end));
    if in_mantissa_range(m) {
        SpecStep::Tok(
            tok_at(TokenType::Number, src, pos, end, Some(SpecLiteral::Number(m)), line),
            end,
            line,
        )
    } else {
        SpecStep::Fail(SpecLexError { kind: LexErrorKind::NumberTooLarge, line })
    }
}

pub open spec fn spec_scan_string(src: Seq<char>, pos: int, line: int) -> SpecStep {
    let e = string_end(src, pos + 1);
    let l2 = line + newlines_between(src, pos + 1, e);
    if e >= src.len() {
        SpecStep::Fail(SpecLexError { kind: LexErrorKind::UnterminatedString, line: l2 })
    } else {
        match unescape(src.subrange(pos + 1, e)) {
            Ok(u) => SpecStep::Tok(
                tok_at(TokenType::String, src, pos, e + 1, Some(SpecLiteral::String(u)), l2),
                e + 1,
                l2,
            ),
            Err(c) => SpecStep::Fail(SpecLexError { kind: LexErrorKind::InvalidEscape(c), line: l2 }),
        }
    }
}

/// One scanning step at `pos` (which must be inside the source).
pub open spec fn spec_scan_token(src: Seq<char>, pos: int, line: int) -> SpecStep {
    let c = src[pos];
    if c == '(' {
        SpecStep::Tok(tok_at(TokenType::LeftParen, src, pos, pos + 1, None, line), pos + 1, line)
    } else if c == ')' {
        SpecStep::Tok(tok_at(TokenType::RightParen, src, pos, pos + 1, None, line), pos + 1, line)
    } else if c == '{' {
        SpecStep::Tok(tok_at(TokenType::LeftBrace, src, pos, pos + 1, None, line), pos + 1, line)
    } else if c == '}' {
        SpecStep::Tok(tok_at(TokenType::RightBrace, src, pos, pos + 1, None, line), pos + 1, line)
    } else if c == ',' {
        SpecStep::Tok(tok_at(TokenType::Comma, src, pos, pos + 1, None, line), pos + 1, line)
    } else if c == ';' {
        SpecStep::Tok(tok_at(TokenType::Semicolon, src, pos, pos + 1, None, line), pos + 1, line)
    } else if c == '+' {
        SpecStep::Tok(tok_at(TokenType::Plus, src, pos, pos + 1, None, line), pos + 1, line)
    } else if c == '-' {
        SpecStep::Tok(tok_at(TokenType::Minus, src, pos, pos + 1, None, line), pos + 1, line)
    } else if c == '*' {
        SpecStep::Tok(tok_at(TokenType::Star, src, pos, pos + 1, None, line), pos + 1, line)
    } else if c == '%' {
        SpecStep::Tok(tok_at(TokenType::Modulo, src, pos, pos + 1, None, line), pos + 1, line)
    } else if c == '/' {
        if pos + 1 < src.len() && src[pos + 1] == '/' {
            SpecStep::Skip(comment_end(src, pos + 2), line)
        } else {
            SpecStep::Tok(tok_at(TokenType::Slash, src, pos, pos + 1, None, line), pos + 1, line)
        }
    } else if c == '=' {
        if pos + 1 < src.len() && src[pos + 1] == '=' {
            SpecStep::Tok(tok_at(TokenType::Equal, src, pos, pos + 2, None, line), pos + 2, line)
        } else {
            SpecStep::Fail(SpecLexError { kind: LexErrorKind::UnexpectedChar('='), line })
        }
    } else if c == '!' {
        if pos + 1 < src.len() && src[pos + 1] == '=' {
            SpecStep::Tok(tok_at(TokenType::NotEqual, src, pos, pos + 2, None, line), pos + 2, line)
        } else {
            SpecStep::Fail(SpecLexError { kind: LexErrorKind::UnexpectedChar('!'), line })
        }
    } else if c == '>' {
        if pos + 1 < src.len() && src[pos + 1] == '=' {
            SpecStep::Tok(
                tok_at(TokenType::GreaterEqual, src, pos, pos + 2, None, line),
                pos + 2,
                line,
            )
        } else {
            SpecStep::Tok(tok_at(TokenType::Greater, src, pos, pos + 1, None, line), pos + 1, line)
        }
    } else if c == '<' {
        if pos + 1 < src.len() && src[pos + 1] == '=' {
            SpecStep::Tok(tok_at(TokenType::LessEqual, src, pos, pos + 2, None, line), pos + 2, line)
        } else {
            SpecStep::Tok(tok_at(TokenType::Less, src, pos, pos + 1, None, line), pos + 1, line)
        }
    } else if c == ' ' || c == '\r' || c == '\t' {
        SpecStep::Skip(pos + 1, line)
    } else if c == '\n' {
        SpecStep::Skip(pos + 1, line + 1)
    } else if c == '"' {
        spec_scan_string(src, pos, line)
    } else if is_digit_char(c) {
        spec_scan_number(src, pos, line)
    } else if is_alpha_char(c) {
        let e = ident_end(src, pos + 1);
        SpecStep::Tok(
            tok_at(keyword_kind(src.subrange(pos, e)), src, pos, e, None, line),
            e,
            line,
        )
    } else {
        SpecStep::Fail(SpecLexError { kind: LexErrorKind::UnexpectedChar(c), line })
    }
}

pub open spec fn eof_token(line: int) -> SpecToken {
    SpecToken { token_type: TokenType::EOF, lexeme: Seq::empty(), literal: None, line }
}

/// Every successful step moves forward and stays within the source.
proof fn lemma_step_progress(src: Seq<char>, pos: int, line: int)
    requires
        0 <= pos < src.len(),
    ensures
        match spec_scan_token(src, pos, line) {
            SpecStep::Tok(_, p, _) => pos < p <= src.len(),
            SpecStep::Skip(p, _) => pos < p <= src.len(),
            SpecStep::Fail(_) => true,
        },
{
    let c = src[pos];
    if c == '/' && pos + 1 < src.len() && src[pos + 1] == '/' {
        lemma_comment_end(src, pos + 2);
    } else if c == '"' {
        lemma_string_end(src, pos + 1);
    } else if c == '(' || c == ')' || c == '{' || c == '}' || c == ',' || c == ';' || c == '+' || c
        == '-' || c == '*' || c == '%' || c == '/' || c == '=' || c == '!' || c == '>' || c == '<'
        || c == ' ' || c == '\r' || c == '\t' || c == '\n' {
    } else if is_digit_char(c) {
        lemma_digits_end(src, pos + 1);
        let e1 = digits_end(src, pos + 1);
        if e1 + 1 < src.len() && src[e1] == '.' && is_digit_char(src[e1 + 1]) {
            lemma_digits_end(src, e1 + 2);
        }
    } else if is_alpha_char(c) {
        lemma_ident_end(src, pos + 1);
    }
}

/// The full token sequence from `pos`, or the first failure. The
/// stream always ends with exactly one end-of-input token.
pub open spec fn spec_lex_from(src: Seq<char>, pos: int, line: int) -> Result<
    Seq<SpecToken>,
    SpecLexError,
>
    decreases src.len() - pos,
    via spec_lex_from_dec
{
    if pos >= src.len() || pos < 0 {
        Ok(seq![eof_token(line)])
    } else {
        match spec_scan_token(src, pos, line) {
            SpecStep::Fail(e) => Err(e),
            SpecStep::Skip(p, l) => spec_lex_from(src, p, l),
            SpecStep::Tok(t, p, l) => match spec_lex_from(src, p, l) {
                Ok(rest) => Ok(seq![t] + rest),
                Err(e) => Err(e),
            },
        }
    }
}

#[via_fn]
proof fn spec_lex_from_dec(src: Seq<char>, pos: int, line: int) {
    if 0 <= pos && pos < src.len() {
        lemma_step_progress(src, pos, line);
    }
}

/// Lexing the same source twice yields identical token sequences:
/// the token stream is a function of the source text alone, and
/// `Lexer::scan_tokens` returns exactly that function's value.
pub proof fn lemma_lexing_deterministic(src: Seq<char>, t1: Seq<SpecToken>, t2: Seq<SpecToken>)
    requires
        spec_lex_from(src, 0, 1) == Ok::<Seq<SpecToken>, SpecLexError>(t1),
        spec_lex_from(src, 0, 1) == Ok::<Seq<SpecToken>, SpecLexError>(t2),
    ensures
        t1 == t2,
{
}

/// `digits_end` lands exactly at the end of a digit run.
proof fn lemma_digits_end_is(src: Seq<char>, pos: int, e: int)
    requires
        0 <= pos <= e <= src.len(),
        forall|k: int| pos <= k < e ==> is_digit_char(#[trigger] src[k]),
        e == src.len() || !is_digit_char(src[e]),
    ensures
        digits_end(src, pos) == e,
    decreases e - pos,
{
    if pos < e {
        lemma_digits_end_is(src, pos + 1, e);
    }
}

/// Lexing a source that is exactly a whole-number literal gives one
/// number token: its lexeme is the entire source and its payload the
/// literal's exact value.
pub proof fn lemma_whole_literal_token(ip: Seq<char>)
    requires
        ip.len() > 0,
        all_digits(ip),
        in_mantissa_range(literal_mant(ip, Seq::empty())),
    ensures
        spec_lex_from(ip, 0, 1) == Ok::<Seq<SpecToken>, SpecLexError>(
            seq![
                tok_at(
                    TokenType::Number,
                    ip,
                    0,
                    ip.len() as int,
                    Some(SpecLiteral::Number(literal_mant(ip, Seq::empty()))),
                    1,
                ),
                eof_token(1),
            ],
        ),
{
    let src = ip;
    let len = src.len() as int;
    assert(is_digit_char(src[0]));
    lemma_digits_end_is(src, 1, len);
    assert(src.subrange(0, len) =~= ip);
    assert(src.subrange(len, len) =~= Seq::<char>::empty());
    let t = tok_at(
        TokenType::Number,
        ip,
        0,
        len,
        Some(SpecLiteral::Number(literal_mant(ip, Seq::empty()))),
        1,
    );
    assert(spec_scan_token(src, 0, 1) == SpecStep::Tok(t, len, 1));
    assert(spec_lex_from(src, len, 1) == Ok::<Seq<SpecToken>, SpecLexError>(seq![eof_token(1)]));
    assert(seq![t] + seq![eof_token(1)] =~= seq![t, eof_token(1)]);
}

/// Lexing a source that is exactly a fractional literal gives one
/// number token: its lexeme is the entire source and its payload the
/// literal's exact value.
pub proof fn lemma_fraction_literal_token(ip: Seq<char>, fp: Seq<char>)
    requires
        ip.len() > 0,
        all_digits(ip),
        fp.len() > 0,
        all_digits(fp),
        in_mantissa_range(literal_mant(ip, fp)),
    ensures
        spec_lex_from(ip + seq!['.'] + fp, 0, 1) == Ok::<Seq<SpecToken>, SpecLexError>(
            seq![
                tok_at(
                    TokenType::Number,
                    ip + seq!['.'] + fp,
                    0,
                    (ip + seq!['.'] + fp).len() as int,
                    Some(SpecLiteral::Number(literal_mant(ip, fp))),
                    1,
                ),
                eof_token(1),
            ],
        ),
{
    let src = ip + seq!['.'] + fp;
    let len = src.len() as int;
    let e1 = ip.len() as int;
    assert(is_digit_char(src[0]));
    assert(src[e1] == '.');
    assert(forall|k: int| 1 <= k < e1 ==> is_digit_char(#[trigger] src[k]));
    lemma_digits_end_is(src, 1, e1);
    assert(is_digit_char(src[e1 + 1]));
    assert(forall|k: int| e1 + 2 <= k < len ==> is_digit_char(#[trigger] src[k]));
    lemma_digits_end_is(src, e1 + 2, len);
    assert(src.subrange(0, e1) =~= ip);
    assert(src.subrange(e1 + 1, len) =~= fp);
    let t = tok_at(
        TokenType::Number,
        src,
        0,
        len,
        Some(SpecLiteral::Number(literal_mant(ip, fp))),
        1,
    );
    assert(spec_scan_token(src, 0, 1) == SpecStep::Tok(t, len, 1));
    assert(spec_lex_from(src, len, 1) == Ok::<Seq<SpecToken>, SpecLexError>(seq![eof_token(1)]));
    assert(seq![t] + seq![eof_token(1)] =~= seq![t, eof_token(1)]);
}

/// The token stream always ends with exactly one end-of-input token.
pub proof fn lemma_lex_shape(src: Seq<char>, pos: int, line: int)
    ensures
        spec_lex_from(src, pos, line) matches Ok(ts) ==> ts.len() >= 1 && ts[ts.len()
            - 1].token_type == TokenType::EOF,
    decreases src.len() - pos,
{
    if pos >= src.len() || pos < 0 {
    } else {
        lemma_step_progress(src, pos, line);
        match spec_scan_token(src, pos, line) {
            SpecStep::Fail(_) => {},
            SpecStep::Skip(p, l) => {
                lemma_lex_shape(src, p, l);
            },
            SpecStep::Tok(t, p, l) => {
                lemma_lex_shape(src, p, l);
            },
        }
    }
}

fn is_digit(c: char) -> (b: bool)
    ensures
        b == is_digit_char(c),
{
    '0' <= c && c <= '9'
}

fn is_alpha(c: char) -> (b: bool)
    ensures
        b == is_alpha_char(c),
{
    ('a' <= c && c <= 'z') || ('A' <= c && c <= 'Z') || c == '_'
}

fn is_alphanumeric(c: char) -> (b: bool)
    ensures
        b == is_alnum_char(c),
{
    is_alpha(c) || is_digit(c)
}

pub struct Lexer {
    source: Vec<char>,
    current: usize,
    line: usize,
}

/// How the spec result from a resume point composes with the tokens
/// already produced.
pub open spec fn lex_compose(pre: Seq<SpecToken>, r: Result<Seq<SpecToken>, SpecLexError>) -> Result<
    Seq<SpecToken>,
    SpecLexError,
> {
    match r {
        Ok(rest) => Ok(pre + rest),
        Err(e) => Err(e),
    }
}

impl Lexer {
    pub closed spec fn src(&self) -> Seq<char> {
        self.source@
    }

    pub closed spec fn pos(&self) -> int {
        self.current as int
    }

    pub closed spec fn line_no(&self) -> int {
        self.line as int
    }

    pub closed spec fn wf(&self) -> bool {
        &&& self.current as int <= self.source@.len()
        &&& 1 <= self.line
        &&& self.line as int <= 1 + self.current as int
        &&& self.source@.len() < usize::MAX as int
    }

    pub fn new(source: String) -> (l: Lexer)
        ensures
            l.wf(),
            l.src() == source@,
            l.pos() == 0,
            l.line_no() == 1,
    {
        Lexer { source: str_to_chars(source.as_str()), current: 0, line: 1 }
    }

    /// The lexeme text between two positions.
    fn lexeme_string(&self, a: usize, b: usize) -> (s: String)
        requires
            a <= b,
            b as int <= self.source@.len(),
        ensures
            s@ == self.source@.subrange(a as int, b as int),
    {
        let mut out: Vec<char> = Vec::new();
        let mut i: usize = a;
        while i < b
            invariant
                a <= i <= b,
                b as int <= self.source@.len(),
                out@ == self.source@.subrange(a as int, i as int),
            decreases b - i,
        {
            out.push(self.source[i]);
            proof {
                assert(self.source@.subrange(a as int, i + 1) =~= self.source@.subrange(
                    a as int,
                    i as int,
                ).push(self.source@[i as int]));
            }
            i = i + 1;
        }
        chars_to_string(&out)
    }

    fn make_token(&self, tt: TokenType, start: usize, lit: Option<Literal>) -> (t: Token)
        requires
            start <= self.current,
            self.current as int <= self.source@.len(),
        ensures
            t@ == tok_at(
                tt,
                self.source@,
                start as int,
                self.current as int,
                opt_literal_view(lit),
                self.line as int,
            ),
    {
        let lexeme = self.lexeme_string(start, self.current);
        Token::new(tt, lexeme, lit, self.line)
    }

    /// True when the next character is `expected`; consumes it then.
    fn match_char(&mut self, expected: char) -> (b: bool)
        requires
            old(self).wf(),
        ensures
            final(self).source@ == old(self).source@,
            final(self).line == old(self).line,
            final(self).wf(),
            b == ((old(self).current as int) < old(self).source@.len() && old(self).source@[old(
                self,
            ).current as int] == expected),
            final(self).current as int == if b {
                old(self).current as int + 1
            } else {
                old(self).current as int
            },
    {
        if self.current >= self.source.len() || self.source[self.current] != expected {
            return false;
        }
        self.current = self.current + 1;
        true
    }

    fn classify_keyword(&self, start: usize, end: usize) -> (t: TokenType)
        requires
            start <= end,
            end as int <= self.source@.len(),
        ensures
            t == keyword_kind(self.source@.subrange(start as int, end as int)),
    {
        let n = end - start;
        let s = &self.source;
        if n == 2 && s[start] == 't' && s[start + 1] == 's' {
            TokenType::Ts
        } else if n == 2 && s[start] == 'y' && s[start + 1] == 'o' {
            TokenType::Yo
        } else if n == 3 && s[start] == 'y' && s[start + 1] == 'a' && s[start + 2] == 'p' {
            TokenType::Yap
        } else if n == 3 && s[start] == 'p' && s[start + 1] == 'm' && s[start + 2] == 'o' {
            TokenType::Pmo
        } else if n == 4 && s[start] == 'g' && s[start + 1] == 'y' && s[start + 2] == 'a' && s[start
            + 3] == 't' {
            TokenType::Gyat
        } else if n == 5 && s[start] == 'g' && s[start + 1] == 'y' && s[start + 2] == 'a' && s[start
            + 3] == 't' && s[start + 4] == 't' {
            TokenType::Gyat
        } else if n == 4 && s[start] == 'h' && s[start + 1] == 'a' && s[start + 2] == 'w' && s[start
            + 3] == 'k' {
            TokenType::Hawk
        } else if n == 4 && s[start] == 't' && s[start + 1] == 'u' && s[start + 2] == 'a' && s[start
            + 3] == 'h' {
            TokenType::Tuah
        } else if n == 4 && s[start] == 'g' && s[start + 1] == 'o' && s[start + 2] == 'o' && s[start
            + 3] == 'n' {
            TokenType::Goon
        } else if n == 4 && s[start] == 'e' && s[start + 1] == 'd' && s[start + 2] == 'g' && s[start
            + 3] == 'e' {
            TokenType::Edge
        } else if n == 4 && s[start] == 'y' && s[start + 1] == 'e' && s[start + 2] == 'e' && s[start
            + 3] == 't' {
            TokenType::Yeet
        } else if n == 5 && s[start] == 's' && s[start + 1] == 'y' && s[start + 2] == 'b' && s[start
            + 3] == 'a' && s[start + 4] == 'u' {
            TokenType::Sybau
        } else if n == 4 && s[start] == 'g' && s[start + 1] == 'u' && s[start + 2] == 'r' && s[start
            + 3] == 't' {
            TokenType::Gurt
        } else {
            TokenType::Identifier
        }
    }

    /// Decode the escapes of the string-literal content `[a, b)`.
    fn unescape_range(&self, a: usize, b: usize) -> (r: Result<Vec<char>, char>)
        requires
            a <= b,
            b as int <= self.source@.len(),
        ensures
            ({
                let s = self.source@.subrange(a as int, b as int);
                match r {
                    Ok(u) => unescape(s) == Ok::<Seq<char>, char>(u@),
                    Err(c) => unescape(s) == Err::<Seq<char>, char>(c),
                }
            }),
    {
        let ghost s = self.source@.subrange(a as int, b as int);
        let mut out: Vec<char> = Vec::new();
        let mut i: usize = a;
        proof {
            assert(s.skip(0) =~= s);
            let x = unescape(s);
            if x is Ok {
                assert(out@ + x->Ok_0 =~= x->Ok_0);
            }
        }
        while i < b
            invariant
                a <= i <= b,
                b as int <= self.source@.len(),
                s == self.source@.subrange(a as int, b as int),
                unescape(s) == (match unescape(s.skip(i - a)) {
                    Ok(rest) => Ok::<Seq<char>, char>(out@ + rest),
                    Err(c) => Err::<Seq<char>, char>(c),
                }),
            decreases b - i,
        {
            let ghost k = i - a;
            let ghost rem = s.skip(k);
            proof {
                assert(rem.len() == b - i);
                assert(rem[0] == s[k]);
                assert(s[k] == self.source@[i as int]);
            }
            let c = self.source[i];
            if c == '\\' && i + 1 < b {
                let e = self.source[i + 1];
                proof {
                    assert(rem[1] == s[k + 1]);
                    assert(s[k + 1] == self.source@[i + 1]);
                    assert(rem.skip(2) =~= s.skip(k + 2));
                }
                let d: char;
                if e == 'n' {
                    d = '\n';
                } else if e == 't' {
                    d = '\t';
                } else if e == 'r' {
                    d = '\r';
                } else if e == '\\' {
                    d = '\\';
                } else if e == '"' {
                    d = '"';
                } else {
                    proof {
                        assert(unescape(rem) == Err::<Seq<char>, char>(e));
                    }
                    return Err(e);
                }
                proof {
                    let nxt = unescape(s.skip(k + 2));
                    assert(unescape(rem) == (match nxt {
                        Ok(rr) => Ok::<Seq<char>, char>(seq![d] + rr),
                        Err(c2) => Err::<Seq<char>, char>(c2),
                    }));
                    if nxt is Ok {
                        assert(out@.push(d) + nxt->Ok_0 =~= out@ + (seq![d] + nxt->Ok_0));
                    }
                }
                out.push(d);
                i = i + 2;
            } else {
                proof {
                    assert(rem.skip(1) =~= s.skip(k + 1));
                    let nxt = unescape(s.skip(k + 1));
                    assert(unescape(rem) == (match nxt {
                        Ok(rr) => Ok::<Seq<char>, char>(seq![c] + rr),
                        Err(c2) => Err::<Seq<char>, char>(c2),
                    }));
                    if nxt is Ok {
                        assert(out@.push(c) + nxt->Ok_0 =~= out@ + (seq![c] + nxt->Ok_0));
                    }
                }
                out.push(c);
                i = i + 1;
            }
        }
        proof {
            assert(s.skip(b - a) =~= Seq::<char>::empty());
            assert(out@ + Seq::<char>::empty() =~= out@);
        }
        Ok(out)
    }

    /// One scanning step; `Ok(None)` means the step produced no token
    /// (whitespace or a comment).
    fn scan_token(&mut self) -> (r: Result<Option<Token>, LexError>)
        requires
            old(self).wf(),
            (old(self).current as int) < old(self).source@.len(),
        ensures
            final(self).wf(),
            final(self).source@ == old(self).source@,
            match r {
                Ok(Some(t)) => spec_scan_token(
                    old(self).source@,
                    old(self).current as int,
                    old(self).line as int,
                ) == SpecStep::Tok(t@, final(self).current as int, final(self).line as int),
                Ok(None) => spec_scan_token(
                    old(self).source@,
                    old(self).current as int,
                    old(self).line as int,
                ) == SpecStep::Skip(final(self).current as int, final(self).line as int),
                Err(e) => spec_scan_token(
                    old(self).source@,
                    old(self).current as int,
                    old(self).line as int,
                ) == SpecStep::Fail(e@),
            },
    {
        let ghost src = self.source@;
        let ghost pos = self.current as int;
        let start = self.current;
        let c = self.source[self.current];
        self.current = self.current + 1;
        if c == '(' {
            Ok(Some(self.make_token(TokenType::LeftParen, start, None)))
        } else if c == ')' {
            Ok(Some(self.make_token(TokenType::RightParen, start, None)))
        } else if c == '{' {
            Ok(Some(self.make_token(TokenType::LeftBrace, start, None)))
        } else if c == '}' {
            Ok(Some(self.make_token(TokenType::RightBrace, start, None)))
        } else if c == ',' {
            Ok(Some(self.make_token(TokenType::Comma, start, None)))
        } else if c == ';' {
            Ok(Some(self.make_token(TokenType::Semicolon, start, None)))
        } else if c == '+' {
            Ok(Some(self.make_token(TokenType::Plus, start, None)))
        } else if c == '-' {
            Ok(Some(self.make_token(TokenType::Minus, start, None)))
        } else if c == '*' {
            Ok(Some(self.make_token(TokenType::Star, start, None)))
        } else if c == '%' {
            Ok(Some(self.make_token(TokenType::Modulo, start, None)))
        } else if c == '/' {
            if self.match_char('/') {
                // Comment runs through the end of the line.
                while self.current < self.source.len() && self.source[self.current] != '\n'
                    invariant
                        self.wf(),
                        self.source@ == src,
                        self.line as int == old(self).line as int,
                        start + 2 <= self.current,
                        comment_end(src, start + 2) == comment_end(src, self.current as int),
                    decreases self.source@.len() - self.current,
                {
                    self.current = self.current + 1;
                }
                Ok(None)
            } else {
                Ok(Some(self.make_token(TokenType::Slash, start, None)))
            }
        } else if c == '=' {
            if self.match_char('=') {
                Ok(Some(self.make_token(TokenType::Equal, start, None)))
            } else {
                Err(LexError { kind: LexErrorKind::UnexpectedChar('='), line: self.line })
            }
        } else if c == '!' {
            if self.match_char('=') {
                Ok(Some(self.make_token(TokenType::NotEqual, start, None)))
            } else {
                Err(LexError { kind: LexErrorKind::UnexpectedChar('!'), line: self.line })
            }
        } else if c == '>' {
            if self.match_char('=') {
                Ok(Some(self.make_token(TokenType::GreaterEqual, start, None)))
            } else {
                Ok(Some(self.make_token(TokenType::Greater, start, None)))
            }
        } else if c == '<' {
            if self.match_char('=') {
                Ok(Some(self.make_token(TokenType::LessEqual, start, None)))
            } else {
                Ok(Some(self.make_token(TokenType::Less, start, None)))
            }
        } else if c == ' ' || c == '\r' || c == '\t' {
            Ok(None)
        } else if c == '\n' {
            self.line = self.line + 1;
            Ok(None)
        } else if c == '"' {
            self.scan_string(start)
        } else if is_digit(c) {
            self.scan_number(start)
        } else if is_alpha(c) {
            while self.current < self.source.len() && is_alphanumeric(
                self.source[self.current],
            )
                invariant
                    self.wf(),
                    self.source@ == src,
                    self.line as int == old(self).line as int,
                    start + 1 <= self.current,
                    ident_end(src, start + 1) == ident_end(src, self.current as int),
                decreases self.source@.len() - self.current,
            {
                self.current = self.current + 1;
            }
            let tt = self.classify_keyword(start, self.current);
            Ok(Some(self.make_token(tt, start, None)))
        } else {
            Err(LexError { kind: LexErrorKind::UnexpectedChar(c), line: self.line })
        }
    }

    /// Scan a number literal; `start` is its first digit.
    fn scan_number(&mut self, start: usize) -> (r: Result<Option<Token>, LexError>)
        requires
            old(self).wf(),
            old(self).current == start + 1,
            (start as int) < old(self).source@.len(),
            is_digit_char(old(self).source@[start as int]),
        ensures
            final(self).wf(),
            final(self).source@ == old(self).source@,
            match r {
                Ok(Some(t)) => spec_scan_number(
                    old(self).source@,
                    start as int,
                    old(self).line as int,
                ) == SpecStep::Tok(t@, final(self).current as int, final(self).line as int),
                Ok(None) => false,
                Err(e) => spec_scan_number(old(self).source@, start as int, old(self).line as int)
                    == SpecStep::Fail(e@),
            },
    {
        let ghost src = self.source@;
        while self.current < self.source.len() && is_digit(self.source[self.current])
            invariant
                self.wf(),
                self.source@ == src,
                self.line == old(self).line,
                start + 1 <= self.current,
                digits_end(src, start + 1) == digits_end(src, self.current as int),
            decreases self.source@.len() - self.current,
        {
            self.current = self.current + 1;
        }
        let e1 = self.current;
        proof {
            lemma_digits_end(src, start + 1);
            assert(e1 as int == digits_end(src, start + 1));
        }
        let mut fs = e1;
        let mut fe = e1;
        if e1 + 1 < self.source.len() && self.source[e1] == '.' && is_digit(self.source[e1 + 1]) {
            // Consume the dot, then the fraction digits.
            self.current = self.current + 2;
            proof {
                assert(digits_end(src, e1 + 1) == digits_end(src, e1 + 2));
            }
            while self.current < self.source.len() && is_digit(self.source[self.current])
                invariant
                    self.wf(),
                    self.source@ == src,
                    self.line == old(self).line,
                    e1 + 2 <= self.current,
                    digits_end(src, e1 + 2) == digits_end(src, self.current as int),
                decreases self.source@.len() - self.current,
            {
                self.current = self.current + 1;
            }
            fs = e1 + 1;
            fe = self.current;
            proof {
                lemma_digits_end(src, e1 + 2);
            }
        }
        proof {
            lemma_digits_end(src, start as int);
            lemma_digits_end(src, fs as int);
            assert(all_digits(src.subrange(start as int, e1 as int)));
            assert(all_digits(src.subrange(fs as int, fe as int)));
        }
        let mant = mantissa_of_literal(&self.source, start, e1, fs, fe);
        match mant {
            Some(n) => Ok(
                Some(self.make_token(TokenType::Number, start, Some(Literal::Number(n)))),
            ),
            None => Err(LexError { kind: LexErrorKind::NumberTooLarge, line: self.line }),
        }
    }

    /// Scan a string literal; `start` is the opening quote.
    fn scan_string(&mut self, start: usize) -> (r: Result<Option<Token>, LexError>)
        requires
            old(self).wf(),
            old(self).current == start + 1,
            (start as int) < old(self).source@.len(),
            old(self).source@[start as int] == '"',
        ensures
            final(self).wf(),
            final(self).source@ == old(self).source@,
            match r {
                Ok(Some(t)) => spec_scan_string(
                    old(self).source@,
                    start as int,
                    old(self).line as int,
                ) == SpecStep::Tok(t@, final(self).current as int, final(self).line as int),
                Ok(None) => false,
                Err(e) => spec_scan_string(old(self).source@, start as int, old(self).line as int)
                    == SpecStep::Fail(e@),
            },
    {
        let ghost src = self.source@;
        let ghost line0 = old(self).line as int;
        while self.current < self.source.len() && self.source[self.current] != '"'
            invariant
                self.source@ == src,
                start + 1 <= self.current,
                self.current as int <= src.len(),
                src.len() < usize::MAX as int,
                string_end(src, start + 1) == string_end(src, self.current as int),
                self.line as int == line0 + newlines_between(src, start + 1, self.current as int),
                1 <= self.line,
                self.line as int <= 1 + self.current as int,
            decreases self.source@.len() - self.current,
        {
            proof {
                lemma_newlines_snoc(src, start + 1, self.current as int);
                lemma_newlines_bounds(src, start + 1, self.current as int);
            }
            if self.source[self.current] == '\n' {
                self.line = self.line + 1;
            }
            self.current = self.current + 1;
        }
        proof {
            lemma_string_end(src, start + 1);
        }
        if self.current >= self.source.len() {
            return Err(
                LexError { kind: LexErrorKind::UnterminatedString, line: self.line },
            );
        }
        let e = self.current;
        // Consume the closing quote.
        self.current = self.current + 1;
        match self.unescape_range(start + 1, e) {
            Ok(u) => {
                let text = chars_to_string(&u);
                Ok(
                    Some(
                        self.make_token(TokenType::String, start, Some(Literal::String(text))),
                    ),
                )
            },
            Err(bad) => Err(
                LexError { kind: LexErrorKind::InvalidEscape(bad), line: self.line },
            ),
        }
    }

    /// The complete token sequence of the source, or the first lexical
    /// error; exactly the mathematical tokenizer's answer.
    pub fn scan_tokens(&mut self) -> (r: Result<Vec<Token>, LexError>)
        requires
            old(self).wf(),
        ensures
            match r {
                Ok(ts) => spec_lex_from(old(self).src(), old(self).pos(), old(self).line_no())
                    == Ok::<Seq<SpecToken>, SpecLexError>(tokens_view(ts@)),
                Err(e) => spec_lex_from(old(self).src(), old(self).pos(), old(self).line_no())
                    == Err::<Seq<SpecToken>, SpecLexError>(e@),
            },
    {
        let ghost src = old(self).source@;
        let mut tokens: Vec<Token> = Vec::new();
        proof {
            let x = spec_lex_from(src, old(self).current as int, old(self).line as int);
            if x is Ok {
                assert(tokens_view(tokens@) + x->Ok_0 =~= x->Ok_0);
            }
        }
        loop
            invariant
                self.wf(),
                self.source@ == src,
                spec_lex_from(src, old(self).current as int, old(self).line as int) == lex_compose(
                    tokens_view(tokens@),
                    spec_lex_from(src, self.current as int, self.line as int),
                ),
            decreases src.len() - self.current as int,
        {
            if self.current >= self.source.len() {
                let t = Token::new(TokenType::EOF, String::new(), None, self.line);
                proof {
                    assert(t@ =~= eof_token(self.line as int));
                    assert(tokens_view(tokens@.push(t)) =~= tokens_view(tokens@).push(t@));
                    assert(tokens_view(tokens@).push(t@) =~= tokens_view(tokens@) + seq![
                        eof_token(self.line as int),
                    ]);
                }
                tokens.push(t);
                return Ok(tokens);
            }
            let ghost p0 = self.current as int;
            let ghost l0 = self.line as int;
            proof {
                lemma_step_progress(src, p0, l0);
            }
            match self.scan_token() {
                Ok(Some(t)) => {
                    proof {
                        assert(tokens_view(tokens@.push(t)) =~= tokens_view(tokens@).push(t@));
                        let rest = spec_lex_from(src, self.current as int, self.line as int);
                        if rest is Ok {
                            assert((tokens_view(tokens@) + (seq![t@] + rest->Ok_0)) =~= (
                            tokens_view(tokens@).push(t@) + rest->Ok_0));
                        }
                    }
                    tokens.push(t);
                },
                Ok(None) => {
                },
                Err(e) => {
                    return Err(e);
                },
            }
        }
    }
}

} // verus!
