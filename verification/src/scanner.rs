//! The scanner engine: a cursor over a source text that produces the
//! ordered token sequence the text contains.

use vstd::prelude::*;
use vstd::string::StrSliceExecFns;

use crate::diag::Diagnostics;
use crate::model::{
    alnum_class, comment_end, digits_end, eof_token, is_digit, is_word_char,
    lemma_next_unit_progress, lemma_string_end_bounds, next_unit, number_unit, opt_seq,
    scan_from, scan_spec, string_end, string_unit, word_end, word_unit,
};
use crate::token::{keyword, opt_token_view, token_views, SpecToken, Token, TokenValue};

verus! {

/// Relies on `char::is_alphanumeric`: whether a character counts as
/// Unicode-alphanumeric is a function of the character alone, and a control
/// character such as a newline is never alphanumeric.
#[verifier::external_body]
fn alphanumeric(c: char) -> (r: bool)
    ensures
        r == (c != '\n' && alnum_class(c)),
{
    c.is_alphanumeric()
}

/// The scanner engine: the source text under scan and the cursor over it.
///
/// `start` and `current` are character positions into the source — `start`
/// the first character of the lexeme being scanned, `current` just past the
/// last consumed character — and `line` is the 1-based line counter.
#[derive(Debug)]
pub struct Scanner<'a> {
    source: &'a str,
    len: usize,
    start: usize,
    current: usize,
    line: usize,
}

impl<'a> Scanner<'a> {
    /// The source text under scan, as a character sequence.
    pub closed spec fn src(&self) -> Seq<char> {
        self.source@
    }

    /// The cursor: the position just past the last consumed character.
    pub closed spec fn cur(&self) -> int {
        self.current as int
    }

    /// The first character position of the lexeme being scanned.
    pub closed spec fn lexeme_start(&self) -> int {
        self.start as int
    }

    /// The current 1-based line counter.
    pub closed spec fn line_no(&self) -> int {
        self.line as int
    }

    /// The cursor invariant: positions are ordered and within the source,
    /// and the line counter never runs ahead of the cursor by more than
    /// its starting value of 1 — it grows only when a newline is consumed.
    pub closed spec fn wf(&self) -> bool {
        &&& self.start <= self.current <= self.source@.len() == self.len
        &&& self.source@.len() < usize::MAX
        &&& 1 <= self.line
        &&& self.line as int <= 1 + self.current as int
    }

    /// The state a scan begins from: the cursor at the first character,
    /// the line counter at 1.
    pub open spec fn at_start(&self) -> bool {
        self.wf() && self.lexeme_start() == 0 && self.cur() == 0 && self.line_no() == 1
    }

    /// A scanner over `source`, ready to scan from its first character.
    ///
    /// The one bound on the source is a machine limit: its character count
    /// must leave room for the line counter.
    pub fn new(source: &'a str) -> (s: Self)
        requires
            source@.len() < usize::MAX,
        ensures
            s.src() == source@,
            s.at_start(),
    {
        Scanner { source, len: source.unicode_len(), start: 0, current: 0, line: 1 }
    }

    /// Whether the whole source has been consumed.
    fn is_at_end(&self) -> (r: bool)
        requires
            self.wf(),
        ensures
            r == (self.cur() == self.src().len()),
    {
        self.current >= self.len
    }

    /// The next character, if any, without consuming it.
    fn peek(&self) -> (r: Option<char>)
        requires
            self.wf(),
        ensures
            r == if self.cur() < self.src().len() {
                Some(self.src()[self.cur()])
            } else {
                None::<char>
            },
    {
        if self.current < self.len {
            Some(self.source.get_char(self.current))
        } else {
            None
        }
    }

    /// The character after the next one, if any, without consuming
    /// anything.
    fn peek_next(&self) -> (r: Option<char>)
        requires
            self.wf(),
        ensures
            r == if self.cur() + 1 < self.src().len() {
                Some(self.src()[self.cur() + 1])
            } else {
                None::<char>
            },
    {
        if self.current < self.len && self.current + 1 < self.len {
            Some(self.source.get_char(self.current + 1))
        } else {
            None
        }
    }

    /// Consumes and returns the next character, if any.
    fn advance(&mut self) -> (r: Option<char>)
        requires
            old(self).wf(),
        ensures
            final(self).wf(),
            final(self).src() == old(self).src(),
            final(self).lexeme_start() == old(self).lexeme_start(),
            final(self).line_no() == old(self).line_no(),
            if old(self).cur() < old(self).src().len() {
                r == Some(old(self).src()[old(self).cur()]) && final(self).cur() == old(
                    self,
                ).cur() + 1
            } else {
                r == None::<char> && final(self).cur() == old(self).cur()
            },
    {
        if self.current < self.len {
            let c = self.source.get_char(self.current);
            self.current = self.current + 1;
            Some(c)
        } else {
            None
        }
    }

    /// Consumes the next character only if it is `expected`.
    fn match_next(&mut self, expected: char) -> (r: bool)
        requires
            old(self).wf(),
        ensures
            final(self).wf(),
            final(self).src() == old(self).src(),
            final(self).lexeme_start() == old(self).lexeme_start(),
            final(self).line_no() == old(self).line_no(),
            r == (old(self).cur() < old(self).src().len() && old(self).src()[old(self).cur()]
                == expected),
            final(self).cur() == if r {
                old(self).cur() + 1
            } else {
                old(self).cur()
            },
    {
        if self.current < self.len {
            let c = self.source.get_char(self.current);
            if c == expected {
                self.current = self.current + 1;
                return true;
            }
        }
        false
    }

    /// The lexeme being scanned: the substring from `start` to the cursor.
    fn cur_slice(&self) -> (r: &'a str)
        requires
            self.wf(),
        ensures
            r@ == self.src().subrange(self.lexeme_start(), self.cur()),
    {
        self.source.substring_char(self.start, self.current)
    }

    /// Scans the identifier or keyword whose first character has just been
    /// consumed: consumes the remaining alphanumeric characters and looks
    /// the complete lexeme up in the keyword table.
    fn identifier(&mut self) -> (r: Option<Token<'a>>)
        requires
            old(self).wf(),
            old(self).cur() == old(self).lexeme_start() + 1,
            is_word_char(old(self).src()[old(self).lexeme_start()]),
        ensures
            final(self).wf(),
            final(self).src() == old(self).src(),
            ({
                let u = word_unit(old(self).src(), old(self).lexeme_start(), old(self).line_no());
                &&& final(self).cur() == u.pos
                &&& final(self).line_no() == u.line
                &&& opt_token_view(r) == u.tok
            }),
    {
        let ghost src = self.src();
        let ghost p0 = self.lexeme_start();
        loop
            invariant
                self.wf(),
                self.src() == src,
                self.lexeme_start() == p0,
                self.line_no() == old(self).line_no(),
                p0 < self.cur(),
                word_end(src, p0) == word_end(src, self.cur()),
            ensures
                self.wf(),
                self.src() == src,
                self.lexeme_start() == p0,
                self.line_no() == old(self).line_no(),
                p0 < self.cur(),
                self.cur() == word_end(src, p0),
            decreases src.len() - self.cur(),
        {
            match self.peek() {
                Some(c) => {
                    if alphanumeric(c) {
                        self.advance();
                    } else {
                        break;
                    }
                },
                None => { break; },
            }
        }
        let lex = self.cur_slice();
        match keyword(lex) {
            Some(v) => Some(Token::new(v, lex, self.line)),
            None => Some(Token::new(TokenValue::Identifier(lex), lex, self.line)),
        }
    }

    /// Scans the number literal whose first digit has just been consumed:
    /// consumes the remaining digits, and a fractional part only where a
    /// dot is directly followed by a digit.
    fn number(&mut self) -> (r: Option<Token<'a>>)
        requires
            old(self).wf(),
            old(self).cur() == old(self).lexeme_start() + 1,
            is_digit(old(self).src()[old(self).lexeme_start()]),
        ensures
            final(self).wf(),
            final(self).src() == old(self).src(),
            ({
                let u = number_unit(old(self).src(), old(self).lexeme_start(), old(self).line_no());
                &&& final(self).cur() == u.pos
                &&& final(self).line_no() == u.line
                &&& opt_token_view(r) == u.tok
            }),
    {
        let ghost src = self.src();
        let ghost p0 = self.lexeme_start();
        loop
            invariant
                self.wf(),
                self.src() == src,
                self.lexeme_start() == p0,
                self.line_no() == old(self).line_no(),
                p0 < self.cur(),
                digits_end(src, p0) == digits_end(src, self.cur()),
            ensures
                self.wf(),
                self.src() == src,
                self.lexeme_start() == p0,
                self.line_no() == old(self).line_no(),
                p0 < self.cur(),
                self.cur() == digits_end(src, p0),
            decreases src.len() - self.cur(),
        {
            match self.peek() {
                Some(c) => {
                    if digit(c) {
                        self.advance();
                    } else {
                        break;
                    }
                },
                None => { break; },
            }
        }
        let p = self.peek();
        let pn = self.peek_next();
        let dot = match p {
            Some(c) => c == '.',
            None => false,
        };
        let frac = match pn {
            Some(c) => digit(c),
            None => false,
        };
        if dot && frac {
            self.advance();
            self.advance();
            let ghost f0 = self.cur();
            loop
                invariant
                    self.wf(),
                    self.src() == src,
                    self.lexeme_start() == p0,
                    self.line_no() == old(self).line_no(),
                    p0 < self.cur(),
                    digits_end(src, f0) == digits_end(src, self.cur()),
                ensures
                    self.wf(),
                    self.src() == src,
                    self.lexeme_start() == p0,
                    self.line_no() == old(self).line_no(),
                    p0 < self.cur(),
                    self.cur() == digits_end(src, f0),
                decreases src.len() - self.cur(),
            {
                match self.peek() {
                    Some(c) => {
                        if digit(c) {
                            self.advance();
                        } else {
                            break;
                        }
                    },
                    None => { break; },
                }
            }
        }
        let lex = self.cur_slice();
        Some(Token::new(TokenValue::Number(lex), lex, self.line))
    }

    /// Scans the string literal whose opening quote has just been
    /// consumed: consumes characters, counting embedded newlines, until
    /// the closing quote; the token is recorded on its opening line.  An
    /// unterminated literal yields a diagnostic and no token, and the
    /// cursor stays where the search stopped: at the end of the input.
    fn string(&mut self, d: &mut Diagnostics) -> (r: Option<Token<'a>>)
        requires
            old(self).wf(),
            old(self).cur() == old(self).lexeme_start() + 1,
            old(self).src()[old(self).lexeme_start()] == '"',
        ensures
            final(self).wf(),
            final(self).src() == old(self).src(),
            ({
                let u = string_unit(old(self).src(), old(self).lexeme_start(), old(self).line_no());
                &&& final(self).cur() == u.pos
                &&& final(self).line_no() == u.line
                &&& opt_token_view(r) == u.tok
                &&& final(d)@ == old(d)@ + opt_seq(u.diag)
            }),
    {
        let ghost src = self.src();
        let ghost p0 = self.lexeme_start();
        let ghost s = string_end(src, p0 + 1, old(self).line_no());
        let line0 = self.line;
        proof {
            lemma_string_end_bounds(src, p0 + 1, old(self).line_no());
        }
        loop
            invariant_except_break
                s == string_end(src, self.cur(), self.line_no()),
            invariant
                self.wf(),
                self.src() == src,
                src == old(self).src(),
                self.lexeme_start() == p0,
                p0 == old(self).lexeme_start(),
                p0 < self.cur(),
                d@ == old(d)@,
                line0 == old(self).line_no(),
                s == string_end(src, p0 + 1, old(self).line_no()),
                0 <= s.end <= src.len(),
            ensures
                self.wf(),
                self.src() == src,
                self.lexeme_start() == p0,
                p0 + 1 < self.cur(),
                d@ == old(d)@,
                s.ok,
                self.cur() == s.end,
                self.line_no() == s.line,
            decreases src.len() - self.cur(),
        {
            match self.peek() {
                Some(c) => {
                    if c == '"' {
                        self.advance();
                        break;
                    } else if c == '\n' {
                        self.advance();
                        self.line = self.line + 1;
                    } else {
                        self.advance();
                    }
                },
                None => {
                    d.error(self.line, "Unterminated string.");
                    proof {
                        assert(d@ =~= old(d)@ + opt_seq(
                            string_unit(src, p0, old(self).line_no()).diag,
                        ));
                    }
                    return None;
                },
            }
        }
        let value = self.source.substring_char(self.start + 1, self.current - 1);
        let lex = self.cur_slice();
        proof {
            assert(d@ =~= old(d)@ + opt_seq(
                string_unit(src, p0, old(self).line_no()).diag,
            ));
        }
        Some(Token::new(TokenValue::String(value), lex, line0))
    }

    /// Scans one lexical unit.
    ///
    /// With input left, the unit starting at the cursor is classified as
    /// [`next_unit`] says: the cursor and the line counter move to where
    /// the unit ends, its token (if any) is returned, and its diagnostic
    /// (if any) is appended to `d`.  At the end of the input the
    /// end-of-input token is returned and nothing changes.
    fn scan_token(&mut self, d: &mut Diagnostics) -> (r: Option<Token<'a>>)
        requires
            old(self).wf(),
        ensures
            final(self).wf(),
            final(self).src() == old(self).src(),
            old(self).cur() < old(self).src().len() ==> ({
                let u = next_unit(old(self).src(), old(self).cur(), old(self).line_no());
                &&& final(self).cur() == u.pos
                &&& final(self).line_no() == u.line
                &&& opt_token_view(r) == u.tok
                &&& final(d)@ == old(d)@ + opt_seq(u.diag)
            }),
            old(self).cur() == old(self).src().len() ==> ({
                &&& opt_token_view(r) == Some(eof_token(old(self).line_no()))
                &&& final(self).cur() == old(self).cur()
                &&& final(self).line_no() == old(self).line_no()
                &&& final(d)@ == old(d)@
            }),
    {
        let ghost src = self.src();
        self.start = self.current;
        let c = match self.advance() {
            Some(c) => c,
            None => {
                proof {
                    reveal_strlit("");
                    assert(""@ =~= Seq::<char>::empty());
                }
                return Some(Token::new(TokenValue::Eof, "", self.line));
            },
        };
        if c == '(' {
            Some(Token::new(TokenValue::LeftParen, self.cur_slice(), self.line))
        } else if c == ')' {
            Some(Token::new(TokenValue::RightParen, self.cur_slice(), self.line))
        } else if c == '{' {
            Some(Token::new(TokenValue::LeftBrace, self.cur_slice(), self.line))
        } else if c == '}' {
            Some(Token::new(TokenValue::RightBrace, self.cur_slice(), self.line))
        } else if c == ',' {
            Some(Token::new(TokenValue::Comma, self.cur_slice(), self.line))
        } else if c == '.' {
            Some(Token::new(TokenValue::Dot, self.cur_slice(), self.line))
        } else if c == '-' {
            Some(Token::new(TokenValue::Minus, self.cur_slice(), self.line))
        } else if c == '+' {
            Some(Token::new(TokenValue::Plus, self.cur_slice(), self.line))
        } else if c == ';' {
            Some(Token::new(TokenValue::Semicolon, self.cur_slice(), self.line))
        } else if c == '*' {
            Some(Token::new(TokenValue::Star, self.cur_slice(), self.line))
        } else if c == '!' {
            if self.match_next('=') {
                Some(Token::new(TokenValue::BangEqual, self.cur_slice(), self.line))
            } else {
                Some(Token::new(TokenValue::Bang, self.cur_slice(), self.line))
            }
        } else if c == '=' {
            if self.match_next('=') {
                Some(Token::new(TokenValue::EqualEqual, self.cur_slice(), self.line))
            } else {
                Some(Token::new(TokenValue::Equal, self.cur_slice(), self.line))
            }
        } else if c == '>' {
            if self.match_next('=') {
                Some(Token::new(TokenValue::GreaterEqual, self.cur_slice(), self.line))
            } else {
                Some(Token::new(TokenValue::Greater, self.cur_slice(), self.line))
            }
        } else if c == '<' {
            if self.match_next('=') {
                Some(Token::new(TokenValue::LessEqual, self.cur_slice(), self.line))
            } else {
                Some(Token::new(TokenValue::Less, self.cur_slice(), self.line))
            }
        } else if c == '/' {
            if self.match_next('/') {
                let ghost c0 = self.cur();
                loop
                    invariant
                        self.wf(),
                        self.src() == src,
                        src == old(self).src(),
                        self.lexeme_start() == old(self).cur(),
                        self.line_no() == old(self).line_no(),
                        old(self).cur() < self.cur(),
                        comment_end(src, c0) == comment_end(src, self.cur()),
                    ensures
                        self.wf(),
                        self.src() == src,
                        self.line_no() == old(self).line_no(),
                        old(self).cur() < self.cur(),
                        self.cur() == comment_end(src, c0),
                    decreases src.len() - self.cur(),
                {
                    match self.peek() {
                        Some(ch) => {
                            if ch != '\n' {
                                self.advance();
                            } else {
                                break;
                            }
                        },
                        None => { break; },
                    }
                }
                None
            } else {
                Some(Token::new(TokenValue::Slash, self.cur_slice(), self.line))
            }
        } else if c == ' ' || c == '\t' || c == '\r' {
            None
        } else if c == '\n' {
            self.line = self.line + 1;
            None
        } else if c == '"' {
            self.string(d)
        } else if digit(c) {
            self.number()
        } else if alphanumeric(c) {
            self.identifier()
        } else {
            d.error(self.line, "unexpected character");
            proof {
                assert(d@ =~= old(d)@ + opt_seq(
                    next_unit(src, old(self).cur(), old(self).line_no()).diag,
                ));
            }
            None
        }
    }

    /// Produces the complete ordered token sequence of the source text,
    /// terminated by the single end-of-input token, appending one
    /// diagnostic to `d` per malformed lexeme met on the way.  The scan
    /// runs to the end of the input whatever diagnostics arise, and the
    /// cursor is reset afterwards, so the same engine may scan again.
    pub fn tokens(&mut self, d: &mut Diagnostics) -> (r: Vec<Token<'a>>)
        requires
            old(self).at_start(),
        ensures
            final(self).src() == old(self).src(),
            final(self).at_start(),
            token_views(r@) == scan_spec(old(self).src()).toks,
            final(d)@ == old(d)@ + scan_spec(old(self).src()).diags,
    {
        let ghost src = self.src();
        let ghost n0 = old(d)@.len() as int;
        let mut toks: Vec<Token<'a>> = Vec::new();
        proof {
            assert(token_views(toks@) + scan_from(src, 0, 1).toks =~= scan_from(src, 0, 1).toks);
            assert(d@.subrange(0, n0) =~= old(d)@);
            assert(d@.subrange(n0, d@.len() as int) + scan_from(src, 0, 1).diags =~= scan_from(
                src,
                0,
                1,
            ).diags);
        }
        loop
            invariant
                self.wf(),
                self.src() == src,
                src == old(self).src(),
                n0 == old(d)@.len(),
                n0 <= d@.len(),
                d@.subrange(0, n0) == old(d)@,
                scan_spec(src).toks == token_views(toks@) + scan_from(
                    src,
                    self.cur(),
                    self.line_no(),
                ).toks,
                scan_spec(src).diags == d@.subrange(n0, d@.len() as int) + scan_from(
                    src,
                    self.cur(),
                    self.line_no(),
                ).diags,
            ensures
                self.wf(),
                self.src() == src,
                self.cur() == src.len(),
                n0 <= d@.len(),
                d@.subrange(0, n0) == old(d)@,
                scan_spec(src).toks == token_views(toks@) + scan_from(
                    src,
                    self.cur(),
                    self.line_no(),
                ).toks,
                scan_spec(src).diags == d@.subrange(n0, d@.len() as int) + scan_from(
                    src,
                    self.cur(),
                    self.line_no(),
                ).diags,
            decreases src.len() - self.cur(),
        {
            if self.is_at_end() {
                break;
            }
            let ghost pre_cur = self.cur();
            let ghost pre_line = self.line_no();
            let ghost pre_d = d@;
            let ghost pre_toks = toks@;
            proof {
                lemma_next_unit_progress(src, pre_cur, pre_line);
            }
            let t = self.scan_token(d);
            let ghost u = next_unit(src, pre_cur, pre_line);
            match t {
                Some(tok) => { toks.push(tok); },
                None => {},
            }
            proof {
                assert(scan_from(src, pre_cur, pre_line).toks == opt_seq(u.tok) + scan_from(
                    src,
                    u.pos,
                    u.line,
                ).toks);
                match u.tok {
                    Some(st) => {
                        assert(token_views(toks@) =~= token_views(pre_toks) + seq![st]);
                    },
                    None => {
                        assert(token_views(toks@) == token_views(pre_toks));
                        assert(opt_seq(u.tok) =~= Seq::<SpecToken>::empty());
                    },
                }
                assert(token_views(toks@) + scan_from(src, u.pos, u.line).toks =~= token_views(
                    pre_toks,
                ) + scan_from(src, pre_cur, pre_line).toks);
                assert(d@.subrange(0, n0) =~= pre_d.subrange(0, n0));
                assert(d@.subrange(n0, d@.len() as int) =~= pre_d.subrange(n0, pre_d.len() as int)
                    + opt_seq(u.diag));
                assert(d@.subrange(n0, d@.len() as int) + scan_from(src, u.pos, u.line).diags
                    =~= pre_d.subrange(n0, pre_d.len() as int) + scan_from(
                    src,
                    pre_cur,
                    pre_line,
                ).diags);
            }
        }
        let ghost end_line = self.line_no();
        proof {
            reveal_strlit("");
            assert(""@ =~= Seq::<char>::empty());
            assert(scan_from(src, self.cur(), end_line).toks == seq![eof_token(end_line)]);
        }
        let eof_tok = Token::new(TokenValue::Eof, "", self.line);
        let ghost pre_toks = toks@;
        toks.push(eof_tok);
        proof {
            assert(token_views(toks@) =~= token_views(pre_toks) + seq![eof_token(end_line)]);
            assert(token_views(toks@) =~= scan_spec(src).toks);
            assert(d@ =~= d@.subrange(0, n0) + d@.subrange(n0, d@.len() as int));
            assert(scan_spec(src).diags =~= d@.subrange(n0, d@.len() as int));
        }
        self.reset();
        toks
    }

    /// Puts the cursor back to the start of the source, ready for another
    /// scan.
    fn reset(&mut self)
        requires
            old(self).wf(),
        ensures
            final(self).src() == old(self).src(),
            final(self).at_start(),
    {
        self.start = 0;
        self.current = 0;
        self.line = 1;
    }
}

/// An ASCII decimal digit.
fn digit(c: char) -> (r: bool)
    ensures
        r == is_digit(c),
{
    '0' <= c && c <= '9'
}

} // verus!
