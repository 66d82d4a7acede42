//! Laws of the scan model, each proved once and for all inputs.

use vstd::prelude::*;

use crate::diag::SpecDiag;
use crate::model::{
    comment_end, digits_end, eq_follows, is_blank, is_digit, is_word_char,
    lemma_comment_end_bounds, lemma_digits_end_bounds, lemma_next_unit_progress,
    lemma_string_end_bounds, lemma_word_end_bounds, next_unit, scan_from, scan_spec,
    string_end, word_end,
};
use crate::token::{spec_keyword, SpecToken, SpecTokenValue};

verus! {

/// The number of newlines at positions `a <= i < b` of `src`.
pub open spec fn newlines_in(src: Seq<char>, a: int, b: int) -> int
    decreases b - a,
    when a <= b
{
    if a < b {
        (if src[a] == '\n' {
            1int
        } else {
            0int
        }) + newlines_in(src, a + 1, b)
    } else {
        0
    }
}

/// One position counts one newline exactly when it holds one.
pub proof fn lemma_newlines_one(src: Seq<char>, a: int)
    ensures
        newlines_in(src, a, a + 1) == if src[a] == '\n' {
            1int
        } else {
            0int
        },
{
    assert(newlines_in(src, a + 1, a + 1) == 0);
}

/// Newline counts over adjacent ranges add up.
pub proof fn lemma_newlines_split(src: Seq<char>, a: int, b: int, c: int)
    requires
        a <= b <= c,
    ensures
        newlines_in(src, a, c) == newlines_in(src, a, b) + newlines_in(src, b, c),
    decreases b - a,
{
    if a < b {
        lemma_newlines_split(src, a + 1, b, c);
    }
}

/// A range without a newline counts none.
pub proof fn lemma_newlines_zero(src: Seq<char>, a: int, b: int)
    requires
        a <= b,
        forall|i: int| a <= i < b ==> src[i] != '\n',
    ensures
        newlines_in(src, a, b) == 0,
    decreases b - a,
{
    if a < b {
        lemma_newlines_zero(src, a + 1, b);
    }
}

/// Every character a line comment consumes is a non-newline.
pub proof fn lemma_comment_region(src: Seq<char>, pos: int)
    requires
        0 <= pos <= src.len(),
    ensures
        forall|i: int| pos <= i < comment_end(src, pos) ==> src[i] != '\n',
    decreases src.len() - pos,
{
    if pos < src.len() && src[pos] != '\n' {
        lemma_comment_region(src, pos + 1);
    }
}

/// Every character up to `digits_end` is a digit, and the run is
/// maximal: the character there, if any, is no digit.
pub proof fn lemma_digits_region(src: Seq<char>, pos: int)
    requires
        0 <= pos <= src.len(),
    ensures
        forall|i: int| pos <= i < digits_end(src, pos) ==> is_digit(src[i]),
        digits_end(src, pos) < src.len() ==> !is_digit(src[digits_end(src, pos)]),
    decreases src.len() - pos,
{
    if pos < src.len() && is_digit(src[pos]) {
        lemma_digits_region(src, pos + 1);
    }
}

/// Every character up to `word_end` is an identifier character, and the
/// run is maximal: the character there, if any, is none.
pub proof fn lemma_word_region(src: Seq<char>, pos: int)
    requires
        0 <= pos <= src.len(),
    ensures
        forall|i: int| pos <= i < word_end(src, pos) ==> is_word_char(src[i]),
        word_end(src, pos) < src.len() ==> !is_word_char(src[word_end(src, pos)]),
    decreases src.len() - pos,
{
    if pos < src.len() && is_word_char(src[pos]) {
        lemma_word_region(src, pos + 1);
    }
}

/// What the search for a closing quote walks over: on success it stops at
/// the first closing quote, on failure there is none to find.
pub proof fn lemma_string_region(src: Seq<char>, pos: int, line: int)
    requires
        0 <= pos <= src.len(),
    ensures
        ({
            let s = string_end(src, pos, line);
            &&& s.ok ==> pos < s.end && src[s.end - 1] == '"' && (forall|i: int|
                pos <= i < s.end - 1 ==> src[i] != '"')
            &&& !s.ok ==> (forall|i: int| pos <= i < src.len() ==> src[i] != '"')
        }),
    decreases src.len() - pos,
{
    lemma_string_end_bounds(src, pos, line);
    if pos >= src.len() {
    } else if src[pos] == '"' {
    } else if src[pos] == '\n' {
        lemma_string_end_bounds(src, pos + 1, line + 1);
        lemma_string_region(src, pos + 1, line + 1);
    } else {
        lemma_string_end_bounds(src, pos + 1, line);
        lemma_string_region(src, pos + 1, line);
    }
}

/// The search for a closing quote raises the line counter by exactly the
/// number of newlines it walks over.
pub proof fn lemma_string_end_lines(src: Seq<char>, pos: int, line: int)
    requires
        0 <= pos <= src.len(),
    ensures
        string_end(src, pos, line).line == line + newlines_in(
            src,
            pos,
            string_end(src, pos, line).end,
        ),
    decreases src.len() - pos,
{
    lemma_string_end_bounds(src, pos, line);
    if pos >= src.len() {
    } else if src[pos] == '"' {
        lemma_newlines_one(src, pos);
    } else if src[pos] == '\n' {
        lemma_string_end_bounds(src, pos + 1, line + 1);
        lemma_string_end_lines(src, pos + 1, line + 1);
    } else {
        lemma_string_end_bounds(src, pos + 1, line);
        lemma_string_end_lines(src, pos + 1, line);
    }
}

/// One unit raises the line counter by exactly the number of newlines it
/// consumes: every newline is counted once, and nothing else counts.
pub proof fn lemma_unit_line_count(src: Seq<char>, pos: int, line: int)
    requires
        0 <= pos < src.len(),
    ensures
        ({
            let u = next_unit(src, pos, line);
            u.line == line + newlines_in(src, pos, u.pos)
        }),
{
    let c = src[pos];
    let u = next_unit(src, pos, line);
    if c == '/' && pos + 1 < src.len() && src[pos + 1] == '/' {
        lemma_comment_end_bounds(src, pos + 2);
        lemma_comment_region(src, pos + 2);
        lemma_newlines_zero(src, pos, u.pos);
    } else if c == '"' {
        let s = string_end(src, pos + 1, line);
        lemma_string_end_bounds(src, pos + 1, line);
        lemma_string_end_lines(src, pos + 1, line);
        lemma_newlines_split(src, pos, pos + 1, s.end);
    } else if c == '\n' {
        lemma_newlines_one(src, pos);
    } else if c == '(' || c == ')' || c == '{' || c == '}' || c == ',' || c == '.' || c == '-'
        || c == '+' || c == ';' || c == '*' || c == '!' || c == '=' || c == '>' || c == '<'
        || c == '/' || is_blank(c) {
        lemma_newlines_zero(src, pos, u.pos);
    } else if is_digit(c) {
        let e = digits_end(src, pos);
        lemma_digits_end_bounds(src, pos);
        lemma_digits_region(src, pos);
        if e + 1 < src.len() && src[e] == '.' && is_digit(src[e + 1]) {
            lemma_digits_end_bounds(src, e + 2);
            lemma_digits_region(src, e + 2);
        }
        lemma_newlines_zero(src, pos, u.pos);
    } else if is_word_char(c) {
        lemma_word_end_bounds(src, pos);
        lemma_word_region(src, pos);
        lemma_newlines_zero(src, pos, u.pos);
    } else {
        lemma_newlines_zero(src, pos, u.pos);
    }
}

/// From any starting point, the end-of-input token closes the sequence and
/// its recorded line is the starting line plus every newline left in the
/// input: each newline raises the counter exactly once.
pub proof fn lemma_scan_from_final_line(src: Seq<char>, pos: int, line: int)
    requires
        0 <= pos <= src.len(),
    ensures
        scan_from(src, pos, line).toks.len() >= 1,
        scan_from(src, pos, line).toks.last().line == line + newlines_in(
            src,
            pos,
            src.len() as int,
        ),
    decreases src.len() - pos,
{
    if pos >= src.len() {
    } else {
        let u = next_unit(src, pos, line);
        lemma_next_unit_progress(src, pos, line);
        lemma_unit_line_count(src, pos, line);
        lemma_newlines_split(src, pos, u.pos, src.len() as int);
        lemma_scan_from_final_line(src, u.pos, u.line);
        let rest = scan_from(src, u.pos, u.line);
        assert(scan_from(src, pos, line).toks.last() == rest.toks.last());
    }
}

/// Line tracking over a whole scan: the final token's recorded line is 1
/// plus the number of newlines in the source — every newline raises the
/// line counter exactly once.
pub proof fn lemma_line_counter(src: Seq<char>)
    ensures
        scan_spec(src).toks.len() >= 1,
        scan_spec(src).toks.last().line == 1 + newlines_in(src, 0, src.len() as int),
{
    lemma_scan_from_final_line(src, 0, 1);
}

/// Every token is recorded on the line its first character stands on:
/// the line counter at the unit's start.
pub proof fn lemma_token_line_is_start_line(src: Seq<char>, pos: int, line: int)
    requires
        0 <= pos < src.len(),
    ensures
        ({
            let u = next_unit(src, pos, line);
            match u.tok {
                Some(t) => t.line == line,
                None => true,
            }
        }),
{
}

/// The two-character kind a bang, equals, less or greater makes when an
/// equals sign follows it.
pub open spec fn two_char_kind(c: char) -> SpecTokenValue {
    if c == '!' {
        SpecTokenValue::BangEqual
    } else if c == '=' {
        SpecTokenValue::EqualEqual
    } else if c == '<' {
        SpecTokenValue::LessEqual
    } else {
        SpecTokenValue::GreaterEqual
    }
}

/// The one-character kind of a bang, equals, less or greater on its own.
pub open spec fn one_char_kind(c: char) -> SpecTokenValue {
    if c == '!' {
        SpecTokenValue::Bang
    } else if c == '=' {
        SpecTokenValue::Equal
    } else if c == '<' {
        SpecTokenValue::Less
    } else {
        SpecTokenValue::Greater
    }
}

/// Two-character operators are maximal: a bang, equals, less or greater
/// directly followed by an equals sign scans as the one two-character
/// token spanning both characters — never as two tokens — and otherwise
/// as its one-character token alone.
pub proof fn lemma_two_char_operators_are_maximal(src: Seq<char>, pos: int, line: int)
    requires
        0 <= pos < src.len(),
        src[pos] == '!' || src[pos] == '=' || src[pos] == '<' || src[pos] == '>',
    ensures
        ({
            let u = next_unit(src, pos, line);
            &&& eq_follows(src, pos) ==> u.pos == pos + 2 && u.tok == Some(
                SpecToken {
                    value: two_char_kind(src[pos]),
                    lexeme: src.subrange(pos, pos + 2),
                    line,
                },
            )
            &&& !eq_follows(src, pos) ==> u.pos == pos + 1 && u.tok == Some(
                SpecToken {
                    value: one_char_kind(src[pos]),
                    lexeme: src.subrange(pos, pos + 1),
                    line,
                },
            )
        }),
{
}

/// A newline unit yields nothing, consumes exactly its one character, and
/// raises the line counter by exactly one.
pub proof fn lemma_newline_unit(src: Seq<char>, pos: int, line: int)
    requires
        0 <= pos < src.len(),
        src[pos] == '\n',
    ensures
        ({
            let u = next_unit(src, pos, line);
            &&& u.pos == pos + 1
            &&& u.line == line + 1
            &&& u.tok is None
            &&& u.diag is None
        }),
{
}

/// String literal round-trip: a quote with a later closing quote scans as
/// one String token recorded on its opening line, whose lexeme is the
/// whole quoted substring up to the first closing quote and whose payload
/// is the text strictly between the quotes, the quotes excluded.
pub proof fn lemma_string_token(src: Seq<char>, pos: int, line: int)
    requires
        0 <= pos < src.len(),
        src[pos] == '"',
        exists|j: int| pos < j < src.len() && src[j] == '"',
    ensures
        ({
            let u = next_unit(src, pos, line);
            let s = string_end(src, pos + 1, line);
            &&& s.ok
            &&& u.pos == s.end
            &&& pos + 1 < s.end <= src.len()
            &&& src[s.end - 1] == '"'
            &&& (forall|i: int| pos + 1 <= i < s.end - 1 ==> src[i] != '"')
            &&& u.tok == Some(
                SpecToken {
                    value: SpecTokenValue::String(src.subrange(pos + 1, s.end - 1)),
                    lexeme: src.subrange(pos, s.end),
                    line,
                },
            )
            &&& u.diag is None
        }),
{
    let s = string_end(src, pos + 1, line);
    lemma_string_end_bounds(src, pos + 1, line);
    lemma_string_region(src, pos + 1, line);
    if !s.ok {
        let j = choose|j: int| pos < j < src.len() && src[j] == '"';
        assert(src[j] != '"');
    }
}

/// An unterminated string literal — a quote with no closing quote after
/// it — consumes to the end of the input, counts its embedded newlines,
/// yields no token, and reports the one unterminated-string diagnostic at
/// the final line; the cursor is not restored, so nothing but the
/// end-of-input token can follow.
pub proof fn lemma_unterminated_string(src: Seq<char>, pos: int, line: int)
    requires
        0 <= pos < src.len(),
        src[pos] == '"',
        forall|j: int| pos < j < src.len() ==> src[j] != '"',
    ensures
        ({
            let u = next_unit(src, pos, line);
            &&& u.pos == src.len()
            &&& u.tok is None
            &&& u.diag == Some(
                SpecDiag {
                    line: line + newlines_in(src, pos + 1, src.len() as int),
                    message: "Unterminated string."@,
                },
            )
        }),
{
    let s = string_end(src, pos + 1, line);
    lemma_string_end_bounds(src, pos + 1, line);
    lemma_string_region(src, pos + 1, line);
    lemma_string_end_lines(src, pos + 1, line);
    if s.ok {
        assert(src[s.end - 1] == '"');
    }
}

/// A number literal consumes its maximal run of digits, takes a
/// fractional part only where a dot is directly followed by a digit — a
/// trailing dot is left unconsumed — and yields one Number token on its
/// own line whose payload is exactly the matched digit text.
pub proof fn lemma_number_token(src: Seq<char>, pos: int, line: int)
    requires
        0 <= pos < src.len(),
        is_digit(src[pos]),
    ensures
        ({
            let u = next_unit(src, pos, line);
            let e = digits_end(src, pos);
            let frac = e + 1 < src.len() && src[e] == '.' && is_digit(src[e + 1]);
            let end = if frac {
                digits_end(src, e + 2)
            } else {
                e
            };
            &&& u.pos == end
            &&& u.line == line
            &&& pos < e <= end <= src.len()
            &&& (forall|i: int| pos <= i < e ==> is_digit(src[i]))
            &&& e < src.len() ==> !is_digit(src[e])
            &&& frac ==> src[e] == '.' && (forall|i: int| e + 2 <= i < end ==> is_digit(src[i]))
                && (end < src.len() ==> !is_digit(src[end]))
            &&& u.tok == Some(
                SpecToken {
                    value: SpecTokenValue::Number(src.subrange(pos, end)),
                    lexeme: src.subrange(pos, end),
                    line,
                },
            )
            &&& u.diag is None
        }),
{
    let e = digits_end(src, pos);
    assert(e == digits_end(src, pos + 1));
    lemma_digits_end_bounds(src, pos + 1);
    lemma_digits_region(src, pos);
    if e + 1 < src.len() && src[e] == '.' && is_digit(src[e + 1]) {
        lemma_digits_end_bounds(src, e + 2);
        lemma_digits_region(src, e + 2);
    }
}

/// A character that starts an identifier: an alphanumeric one that no
/// earlier rule of the per-unit dispatch claims.
pub open spec fn starts_plain_word(c: char) -> bool {
    &&& is_word_char(c)
    &&& !is_digit(c)
    &&& !(c == '(' || c == ')' || c == '{' || c == '}' || c == ',' || c == '.' || c == '-' || c
        == '+' || c == ';' || c == '*' || c == '!' || c == '=' || c == '>' || c == '<' || c == '/'
        || c == '"')
    &&& !is_blank(c)
}

/// An identifier consumes its maximal run of alphanumeric characters and
/// yields, on its own line, the keyword token of its exact spelling where
/// the keyword table has one, and otherwise an Identifier token carrying
/// the lexeme — so a spelling that merely begins with a keyword stays one
/// identifier.
pub proof fn lemma_word_token(src: Seq<char>, pos: int, line: int)
    requires
        0 <= pos < src.len(),
        starts_plain_word(src[pos]),
    ensures
        ({
            let u = next_unit(src, pos, line);
            let end = word_end(src, pos);
            let lex = src.subrange(pos, end);
            &&& u.pos == end
            &&& u.line == line
            &&& pos < end <= src.len()
            &&& (forall|i: int| pos <= i < end ==> is_word_char(src[i]))
            &&& end < src.len() ==> !is_word_char(src[end])
            &&& u.tok == Some(
                SpecToken {
                    value: match spec_keyword(lex) {
                        Some(k) => k,
                        None => SpecTokenValue::Identifier(lex),
                    },
                    lexeme: lex,
                    line,
                },
            )
            &&& u.diag is None
        }),
{
    assert(word_end(src, pos) == word_end(src, pos + 1));
    lemma_word_end_bounds(src, pos + 1);
    lemma_word_region(src, pos);
}

/// The token kinds whose lexeme is always one fixed character, whatever
/// follows them.
pub open spec fn is_single_punct(c: char) -> bool {
    c == '(' || c == ')' || c == '{' || c == '}' || c == ',' || c == '.' || c == '-' || c == '+'
        || c == ';' || c == '*'
}

/// A source text made only of single-character punctuation and
/// whitespace.
pub open spec fn only_punct_or_space(src: Seq<char>) -> bool {
    forall|i: int|
        0 <= i < src.len() ==> is_single_punct(#[trigger] src[i]) || is_blank(src[i]) || src[i]
            == '\n'
}

/// The lexemes such a source should yield: one singleton lexeme per
/// punctuation character, in source order, whitespace dropped.
pub open spec fn punct_lexemes_from(src: Seq<char>, pos: int) -> Seq<Seq<char>>
    decreases src.len() - pos,
    when 0 <= pos <= src.len()
{
    if pos >= src.len() {
        Seq::<Seq<char>>::empty()
    } else if is_single_punct(src[pos]) {
        seq![seq![src[pos]]] + punct_lexemes_from(src, pos + 1)
    } else {
        punct_lexemes_from(src, pos + 1)
    }
}

/// The lexemes of a token sequence, in order.
pub open spec fn lexemes_of(toks: Seq<SpecToken>) -> Seq<Seq<char>> {
    toks.map_values(|t: SpecToken| t.lexeme)
}

proof fn lemma_scan_from_single_punct(src: Seq<char>, pos: int, line: int)
    requires
        only_punct_or_space(src),
        0 <= pos <= src.len(),
    ensures
        lexemes_of(scan_from(src, pos, line).toks) == punct_lexemes_from(src, pos).push(
            Seq::<char>::empty(),
        ),
    decreases src.len() - pos,
{
    if pos >= src.len() {
        assert(lexemes_of(scan_from(src, pos, line).toks) =~= punct_lexemes_from(src, pos).push(
            Seq::<char>::empty(),
        ));
    } else {
        let c = src[pos];
        let u = next_unit(src, pos, line);
        lemma_scan_from_single_punct(src, pos + 1, u.line);
        let rest = scan_from(src, pos + 1, u.line);
        if is_single_punct(c) {
            let t = u.tok->0;
            assert(t.lexeme =~= seq![src[pos]]);
            assert(lexemes_of(seq![t] + rest.toks) =~= seq![t.lexeme] + lexemes_of(rest.toks));
            assert(seq![t.lexeme] + punct_lexemes_from(src, pos + 1).push(Seq::<char>::empty())
                =~= (seq![seq![src[pos]]] + punct_lexemes_from(src, pos + 1)).push(
                Seq::<char>::empty(),
            ));
        } else {
            assert(lexemes_of(scan_from(src, pos, line).toks) =~= lexemes_of(rest.toks));
        }
    }
}

/// A source of single-character punctuation and whitespace yields one
/// token per punctuation character — none for whitespace — each keeping
/// its exact character as its lexeme, and then the end-of-input token
/// with its empty lexeme.
pub proof fn lemma_single_punct_scan(src: Seq<char>)
    requires
        only_punct_or_space(src),
    ensures
        lexemes_of(scan_spec(src).toks) == punct_lexemes_from(src, 0).push(Seq::<char>::empty()),
{
    lemma_scan_from_single_punct(src, 0, 1);
}

/// Scanning is deterministic: what a scan yields — tokens and
/// diagnostics alike — is a function of the source text alone, so two
/// scans of equal sources are identical.
pub proof fn lemma_scan_deterministic(src1: Seq<char>, src2: Seq<char>)
    requires
        src1 == src2,
    ensures
        scan_spec(src1) == scan_spec(src2),
{
}

/// No unit yields the end-of-input token: it is appended once, at the end.
pub proof fn lemma_next_unit_no_eof(src: Seq<char>, pos: int, line: int)
    requires
        0 <= pos < src.len(),
    ensures
        ({
            let u = next_unit(src, pos, line);
            match u.tok {
                Some(t) => !(t.value is Eof),
                None => true,
            }
        }),
{
}

proof fn lemma_scan_from_one_eof(src: Seq<char>, pos: int, line: int)
    requires
        0 <= pos <= src.len(),
    ensures
        scan_from(src, pos, line).toks.len() >= 1,
        scan_from(src, pos, line).toks.last().value is Eof,
        scan_from(src, pos, line).toks.last().lexeme == Seq::<char>::empty(),
        forall|i: int|
            0 <= i < scan_from(src, pos, line).toks.len() - 1 ==> !(#[trigger] scan_from(
                src,
                pos,
                line,
            ).toks[i].value is Eof),
    decreases src.len() - pos,
{
    if pos >= src.len() {
    } else {
        let u = next_unit(src, pos, line);
        lemma_next_unit_progress(src, pos, line);
        lemma_next_unit_no_eof(src, pos, line);
        lemma_scan_from_one_eof(src, u.pos, u.line);
        let rest = scan_from(src, u.pos, u.line);
        assert(scan_from(src, pos, line).toks.last() == rest.toks.last());
    }
}

/// Every run ends with exactly one end-of-input token: the token sequence
/// is never empty, its last token is the end marker with an empty lexeme,
/// and no earlier token is an end marker — however many diagnostics the
/// run reported.
pub proof fn lemma_one_eof(src: Seq<char>)
    ensures
        scan_spec(src).toks.len() >= 1,
        scan_spec(src).toks.last().value is Eof,
        scan_spec(src).toks.last().lexeme == Seq::<char>::empty(),
        forall|i: int|
            0 <= i < scan_spec(src).toks.len() - 1 ==> !(#[trigger] scan_spec(
                src,
            ).toks[i].value is Eof),
{
    lemma_scan_from_one_eof(src, 0, 1);
}

} // verus!
