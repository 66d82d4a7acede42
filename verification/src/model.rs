//! The mathematical model of a scan.
//!
//! A scan of a source text is modelled as a recursion over character
//! positions: [`next_unit`] says how one lexical unit starting at a given
//! position and line is classified — where the cursor lands, what the line
//! counter becomes, and which token or diagnostic (if any) the unit yields —
//! and [`scan_from`] folds units together until the input is exhausted,
//! appending the single end-of-input token.  The executable scanner is
//! specified against [`scan_spec`].

use vstd::prelude::*;

use crate::diag::SpecDiag;
use crate::token::{spec_keyword, SpecToken, SpecTokenValue};

verus! {

/// An ASCII decimal digit.
pub open spec fn is_digit(c: char) -> bool {
    '0' <= c && c <= '9'
}

/// Whitespace that is consumed without effect: space, tab, carriage return.
pub open spec fn is_blank(c: char) -> bool {
    c == ' ' || c == '\t' || c == '\r'
}

/// Whether a character is Unicode-alphanumeric, as the character
/// classification tables of the standard library have it.  The
/// classification is a function of the character alone; it is left
/// uninterpreted here and tied to `char::is_alphanumeric` by the one
/// trusted wrapper in the scanner.
pub uninterp spec fn alnum_class(c: char) -> bool;

/// The characters an identifier is made of: alphanumeric ones.  A newline
/// is a control character and never alphanumeric, which the model states
/// outright: line counting below depends on no identifier swallowing one.
pub open spec fn is_word_char(c: char) -> bool {
    c != '\n' && alnum_class(c)
}

/// The first position at or after `pos` that ends a line comment: the
/// position of the next newline, or the end of the input.  The newline
/// itself is not part of the comment.
pub open spec fn comment_end(src: Seq<char>, pos: int) -> int
    decreases src.len() - pos,
    when 0 <= pos <= src.len()
{
    if pos < src.len() && src[pos] != '\n' {
        comment_end(src, pos + 1)
    } else {
        pos
    }
}

/// The first position at or after `pos` that does not hold an ASCII digit.
pub open spec fn digits_end(src: Seq<char>, pos: int) -> int
    decreases src.len() - pos,
    when 0 <= pos <= src.len()
{
    if pos < src.len() && is_digit(src[pos]) {
        digits_end(src, pos + 1)
    } else {
        pos
    }
}

/// The first position at or after `pos` that does not hold an
/// identifier character.
pub open spec fn word_end(src: Seq<char>, pos: int) -> int
    decreases src.len() - pos,
    when 0 <= pos <= src.len()
{
    if pos < src.len() && is_word_char(src[pos]) {
        word_end(src, pos + 1)
    } else {
        pos
    }
}

/// The outcome of searching for the closing quote of a string literal from
/// position `pos` (just past the opening quote) on line `line`.
pub struct StrScan {
    /// The position just past the closing quote, or the end of the input.
    pub end: int,
    /// The line counter after the embedded newlines have been counted.
    pub line: int,
    /// Whether a closing quote was found.
    pub ok: bool,
}

/// Searches for the closing quote of a string literal, counting the
/// newlines it walks over: string literals may span lines.
pub open spec fn string_end(src: Seq<char>, pos: int, line: int) -> StrScan
    decreases src.len() - pos,
    when 0 <= pos <= src.len()
{
    if pos >= src.len() {
        StrScan { end: pos, line, ok: false }
    } else if src[pos] == '"' {
        StrScan { end: pos + 1, line, ok: true }
    } else if src[pos] == '\n' {
        string_end(src, pos + 1, line + 1)
    } else {
        string_end(src, pos + 1, line)
    }
}

/// What one lexical unit does: where the cursor lands, the line counter
/// after the unit, and the token or diagnostic the unit yields.  Units
/// that consume whitespace or a comment yield neither.
pub struct Unit {
    pub pos: int,
    pub line: int,
    pub tok: Option<SpecToken>,
    pub diag: Option<SpecDiag>,
}

/// A unit that yields the token of kind `value` spanning `pos..end`.
pub open spec fn token_unit(
    src: Seq<char>,
    pos: int,
    end: int,
    line: int,
    value: SpecTokenValue,
) -> Unit {
    Unit {
        pos: end,
        line,
        tok: Some(SpecToken { value, lexeme: src.subrange(pos, end), line }),
        diag: None,
    }
}

/// A unit that consumes `n` characters and yields nothing.
pub open spec fn skip_unit(pos: int, n: int, line: int) -> Unit {
    Unit { pos: pos + n, line, tok: None, diag: None }
}

/// The string-literal unit starting at the opening quote at `pos`.  On
/// success the token's payload is the text strictly between the quotes and
/// its lexeme includes them; the token is recorded on the line its opening
/// quote stands on, while the line counter moves past the embedded
/// newlines.  An unterminated literal yields a diagnostic at the final
/// line and no token, and the cursor is left where the search stopped: at
/// the end of the input.
pub open spec fn string_unit(src: Seq<char>, pos: int, line: int) -> Unit {
    let s = string_end(src, pos + 1, line);
    if s.ok {
        Unit {
            pos: s.end,
            line: s.line,
            tok: Some(
                SpecToken {
                    value: SpecTokenValue::String(src.subrange(pos + 1, s.end - 1)),
                    lexeme: src.subrange(pos, s.end),
                    line,
                },
            ),
            diag: None,
        }
    } else {
        Unit {
            pos: s.end,
            line: s.line,
            tok: None,
            diag: Some(SpecDiag { line: s.line, message: "Unterminated string."@ }),
        }
    }
}

/// The number-literal unit starting at the digit at `pos`: one or more
/// digits, then a fractional part only if a dot is directly followed by a
/// digit.  The payload is the digit text itself.
pub open spec fn number_unit(src: Seq<char>, pos: int, line: int) -> Unit {
    let e = digits_end(src, pos);
    let end = if e + 1 < src.len() && src[e] == '.' && is_digit(src[e + 1]) {
        digits_end(src, e + 2)
    } else {
        e
    };
    token_unit(src, pos, end, line, SpecTokenValue::Number(src.subrange(pos, end)))
}

/// The identifier-or-keyword unit starting at the word character at `pos`.
pub open spec fn word_unit(src: Seq<char>, pos: int, line: int) -> Unit {
    let end = word_end(src, pos);
    let lexeme = src.subrange(pos, end);
    match spec_keyword(lexeme) {
        Some(k) => token_unit(src, pos, end, line, k),
        None => token_unit(src, pos, end, line, SpecTokenValue::Identifier(lexeme)),
    }
}

/// Whether the character at `pos + 1` is an equals sign, which makes a
/// two-character operator out of `!`, `=`, `<` or `>`.
pub open spec fn eq_follows(src: Seq<char>, pos: int) -> bool {
    pos + 1 < src.len() && src[pos + 1] == '='
}

/// Classifies the one lexical unit starting at `pos`, which must lie on a
/// character of the source.
pub open spec fn next_unit(src: Seq<char>, pos: int, line: int) -> Unit
    recommends
        0 <= pos < src.len(),
{
    let c = src[pos];
    if c == '(' {
        token_unit(src, pos, pos + 1, line, SpecTokenValue::LeftParen)
    } else if c == ')' {
        token_unit(src, pos, pos + 1, line, SpecTokenValue::RightParen)
    } else if c == '{' {
        token_unit(src, pos, pos + 1, line, SpecTokenValue::LeftBrace)
    } else if c == '}' {
        token_unit(src, pos, pos + 1, line, SpecTokenValue::RightBrace)
    } else if c == ',' {
        token_unit(src, pos, pos + 1, line, SpecTokenValue::Comma)
    } else if c == '.' {
        token_unit(src, pos, pos + 1, line, SpecTokenValue::Dot)
    } else if c == '-' {
        token_unit(src, pos, pos + 1, line, SpecTokenValue::Minus)
    } else if c == '+' {
        token_unit(src, pos, pos + 1, line, SpecTokenValue::Plus)
    } else if c == ';' {
        token_unit(src, pos, pos + 1, line, SpecTokenValue::Semicolon)
    } else if c == '*' {
        token_unit(src, pos, pos + 1, line, SpecTokenValue::Star)
    } else if c == '!' {
        if eq_follows(src, pos) {
            token_unit(src, pos, pos + 2, line, SpecTokenValue::BangEqual)
        } else {
            token_unit(src, pos, pos + 1, line, SpecTokenValue::Bang)
        }
    } else if c == '=' {
        if eq_follows(src, pos) {
            token_unit(src, pos, pos + 2, line, SpecTokenValue::EqualEqual)
        } else {
            token_unit(src, pos, pos + 1, line, SpecTokenValue::Equal)
        }
    } else if c == '>' {
        if eq_follows(src, pos) {
            token_unit(src, pos, pos + 2, line, SpecTokenValue::GreaterEqual)
        } else {
            token_unit(src, pos, pos + 1, line, SpecTokenValue::Greater)
        }
    } else if c == '<' {
        if eq_follows(src, pos) {
            token_unit(src, pos, pos + 2, line, SpecTokenValue::LessEqual)
        } else {
            token_unit(src, pos, pos + 1, line, SpecTokenValue::Less)
        }
    } else if c == '/' {
        if pos + 1 < src.len() && src[pos + 1] == '/' {
            Unit { pos: comment_end(src, pos + 2), line, tok: None, diag: None }
        } else {
            token_unit(src, pos, pos + 1, line, SpecTokenValue::Slash)
        }
    } else if is_blank(c) {
        skip_unit(pos, 1, line)
    } else if c == '\n' {
        Unit { pos: pos + 1, line: line + 1, tok: None, diag: None }
    } else if c == '"' {
        string_unit(src, pos, line)
    } else if is_digit(c) {
        number_unit(src, pos, line)
    } else if is_word_char(c) {
        word_unit(src, pos, line)
    } else {
        Unit {
            pos: pos + 1,
            line,
            tok: None,
            diag: Some(SpecDiag { line, message: "unexpected character"@ }),
        }
    }
}

/// The end-of-input token: empty lexeme, recorded on the final line.
pub open spec fn eof_token(line: int) -> SpecToken {
    SpecToken { value: SpecTokenValue::Eof, lexeme: Seq::<char>::empty(), line }
}

/// What a whole scan yields: the ordered tokens and the ordered
/// diagnostics.
pub struct ScanOut {
    pub toks: Seq<SpecToken>,
    pub diags: Seq<SpecDiag>,
}

/// An optional element as a sequence of zero or one elements.
pub open spec fn opt_seq<A>(o: Option<A>) -> Seq<A> {
    match o {
        Some(a) => seq![a],
        None => Seq::<A>::empty(),
    }
}

/// Scans from `pos` on line `line` to the end of the input, then appends
/// the single end-of-input token.
pub open spec fn scan_from(src: Seq<char>, pos: int, line: int) -> ScanOut
    decreases src.len() - pos,
    when 0 <= pos <= src.len()
    via scan_from_decreases
{
    if pos >= src.len() {
        ScanOut { toks: seq![eof_token(line)], diags: Seq::<SpecDiag>::empty() }
    } else {
        let u = next_unit(src, pos, line);
        let rest = scan_from(src, u.pos, u.line);
        ScanOut { toks: opt_seq(u.tok) + rest.toks, diags: opt_seq(u.diag) + rest.diags }
    }
}

/// A complete scan of a source text, from its first character on line 1.
pub open spec fn scan_spec(src: Seq<char>) -> ScanOut {
    scan_from(src, 0, 1)
}

/// `comment_end` stays within the input and never moves backwards.
pub proof fn lemma_comment_end_bounds(src: Seq<char>, pos: int)
    requires
        0 <= pos <= src.len(),
    ensures
        pos <= comment_end(src, pos) <= src.len(),
    decreases src.len() - pos,
{
    if pos < src.len() && src[pos] != '\n' {
        lemma_comment_end_bounds(src, pos + 1);
    }
}

/// `digits_end` stays within the input and never moves backwards.
pub proof fn lemma_digits_end_bounds(src: Seq<char>, pos: int)
    requires
        0 <= pos <= src.len(),
    ensures
        pos <= digits_end(src, pos) <= src.len(),
    decreases src.len() - pos,
{
    if pos < src.len() && is_digit(src[pos]) {
        lemma_digits_end_bounds(src, pos + 1);
    }
}

/// `word_end` stays within the input and never moves backwards.
pub proof fn lemma_word_end_bounds(src: Seq<char>, pos: int)
    requires
        0 <= pos <= src.len(),
    ensures
        pos <= word_end(src, pos) <= src.len(),
    decreases src.len() - pos,
{
    if pos < src.len() && is_word_char(src[pos]) {
        lemma_word_end_bounds(src, pos + 1);
    }
}

/// `string_end` stays within the input, never moves backwards, and never
/// decreases the line counter.
pub proof fn lemma_string_end_bounds(src: Seq<char>, pos: int, line: int)
    requires
        0 <= pos <= src.len(),
    ensures
        pos <= string_end(src, pos, line).end <= src.len(),
        string_end(src, pos, line).line >= line,
        !string_end(src, pos, line).ok ==> string_end(src, pos, line).end == src.len(),
    decreases src.len() - pos,
{
    if pos >= src.len() {
    } else if src[pos] == '"' {
    } else if src[pos] == '\n' {
        lemma_string_end_bounds(src, pos + 1, line + 1);
    } else {
        lemma_string_end_bounds(src, pos + 1, line);
    }
}

/// Every unit makes progress: the cursor advances by at least one
/// character and stays within the input.
pub proof fn lemma_next_unit_progress(src: Seq<char>, pos: int, line: int)
    requires
        0 <= pos < src.len(),
    ensures
        pos < next_unit(src, pos, line).pos <= src.len(),
{
    let c = src[pos];
    if c == '/' && pos + 1 < src.len() && src[pos + 1] == '/' {
        lemma_comment_end_bounds(src, pos + 2);
    } else if c == '"' {
        lemma_string_end_bounds(src, pos + 1, line);
    } else if is_digit(c) {
        let e = digits_end(src, pos);
        assert(e == digits_end(src, pos + 1));
        lemma_digits_end_bounds(src, pos + 1);
        if e + 1 < src.len() && src[e] == '.' && is_digit(src[e + 1]) {
            lemma_digits_end_bounds(src, e + 2);
        }
    } else if is_word_char(c) {
        let e = word_end(src, pos);
        assert(e == word_end(src, pos + 1));
        lemma_word_end_bounds(src, pos + 1);
    }
}

#[via_fn]
proof fn scan_from_decreases(src: Seq<char>, pos: int, line: int) {
    if 0 <= pos < src.len() {
        lemma_next_unit_progress(src, pos, line);
    }
}

} // verus!
