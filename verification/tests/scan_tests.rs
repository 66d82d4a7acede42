use rlox::diag::Diagnostics;
use rlox::scanner::Scanner;
use rlox::token::{keyword, Token, TokenValue};

fn scan(source: &str) -> (Vec<Token<'_>>, Diagnostics) {
    let mut d = Diagnostics::new();
    let mut s = Scanner::new(source);
    let toks = s.tokens(&mut d);
    (toks, d)
}

fn number_value(t: &Token) -> f64 {
    match t.value {
        TokenValue::Number(text) => text.parse().unwrap(),
        _ => panic!("expected a number token, got {:?}", t),
    }
}

#[test]
fn empty_source_yields_only_eof() {
    let (toks, d) = scan("");
    assert_eq!(toks.len(), 1);
    assert_eq!(toks[0].value, TokenValue::Eof);
    assert_eq!(toks[0].lexeme, "");
    assert_eq!(toks[0].line, 1);
    assert!(!d.had_error());
}

#[test]
fn single_character_operators() {
    let source = "(){},.-+;*";
    let (toks, d) = scan(source);
    assert!(!d.had_error());
    let expected = [
        TokenValue::LeftParen,
        TokenValue::RightParen,
        TokenValue::LeftBrace,
        TokenValue::RightBrace,
        TokenValue::Comma,
        TokenValue::Dot,
        TokenValue::Minus,
        TokenValue::Plus,
        TokenValue::Semicolon,
        TokenValue::Star,
    ];
    assert_eq!(toks.len(), expected.len() + 1);
    for (i, want) in expected.iter().enumerate() {
        assert_eq!(toks[i].value, *want);
        assert_eq!(toks[i].lexeme, &source[i..i + 1]);
        assert_eq!(toks[i].line, 1);
    }
    assert_eq!(toks[expected.len()].value, TokenValue::Eof);
}

#[test]
fn whitespace_yields_no_tokens() {
    let (toks, d) = scan(" ( \t )\r ");
    assert!(!d.had_error());
    assert_eq!(toks.len(), 3);
    assert_eq!(toks[0].value, TokenValue::LeftParen);
    assert_eq!(toks[1].value, TokenValue::RightParen);
    assert_eq!(toks[2].value, TokenValue::Eof);
}

#[test]
fn bang_equal_is_one_token() {
    let (toks, d) = scan("!=");
    assert!(!d.had_error());
    assert_eq!(toks.len(), 2);
    assert_eq!(toks[0].value, TokenValue::BangEqual);
    assert_eq!(toks[0].lexeme, "!=");
    assert_eq!(toks[1].value, TokenValue::Eof);
}

#[test]
fn one_and_two_character_operators() {
    let (toks, d) = scan("! != = == < <= > >= /");
    assert!(!d.had_error());
    let expected = [
        TokenValue::Bang,
        TokenValue::BangEqual,
        TokenValue::Equal,
        TokenValue::EqualEqual,
        TokenValue::Less,
        TokenValue::LessEqual,
        TokenValue::Greater,
        TokenValue::GreaterEqual,
        TokenValue::Slash,
    ];
    assert_eq!(toks.len(), expected.len() + 1);
    for (i, want) in expected.iter().enumerate() {
        assert_eq!(toks[i].value, *want);
    }
}

#[test]
fn comment_consumes_to_end_of_line() {
    let (toks, d) = scan("// comment\n1");
    assert!(!d.had_error());
    assert_eq!(toks.len(), 2);
    assert_eq!(number_value(&toks[0]), 1.0);
    assert_eq!(toks[0].line, 2);
    assert_eq!(toks[1].value, TokenValue::Eof);
}

#[test]
fn comment_at_end_of_input() {
    let (toks, d) = scan("// nothing follows");
    assert!(!d.had_error());
    assert_eq!(toks.len(), 1);
    assert_eq!(toks[0].value, TokenValue::Eof);
}

#[test]
fn string_literal_round_trip() {
    let (toks, d) = scan("\"hello\"");
    assert!(!d.had_error());
    assert_eq!(toks.len(), 2);
    assert_eq!(toks[0].value, TokenValue::String("hello"));
    assert_eq!(toks[0].lexeme, "\"hello\"");
    assert_eq!(toks[1].value, TokenValue::Eof);
}

#[test]
fn unterminated_string_reports_and_still_ends_with_eof() {
    let (toks, d) = scan("\"abc");
    assert!(d.had_error());
    assert_eq!(d.len(), 1);
    assert_eq!(d.get(0).message, "Unterminated string.");
    assert_eq!(d.get(0).line, 1);
    assert!(toks
        .iter()
        .all(|t| !matches!(t.value, TokenValue::String(_))));
    assert_eq!(toks.len(), 1);
    assert_eq!(toks.last().unwrap().value, TokenValue::Eof);
}

#[test]
fn multi_line_string_counts_lines() {
    let (toks, d) = scan("\"a\nb\"");
    assert!(!d.had_error());
    assert_eq!(toks.len(), 2);
    assert_eq!(toks[0].value, TokenValue::String("a\nb"));
    assert_eq!(toks[0].line, 1);
    assert_eq!(toks[1].line, 2);
}

#[test]
fn number_integer() {
    let (toks, d) = scan("123");
    assert!(!d.had_error());
    assert_eq!(toks.len(), 2);
    assert_eq!(number_value(&toks[0]), 123.0);
    assert_eq!(toks[0].lexeme, "123");
}

#[test]
fn number_fraction() {
    let (toks, _) = scan("1.5");
    assert_eq!(toks.len(), 2);
    assert_eq!(number_value(&toks[0]), 1.5);
    assert_eq!(toks[0].lexeme, "1.5");
}

#[test]
fn number_keeps_trailing_dot_out() {
    let (toks, d) = scan("1.");
    assert!(!d.had_error());
    assert_eq!(toks.len(), 3);
    assert_eq!(number_value(&toks[0]), 1.0);
    assert_eq!(toks[0].lexeme, "1");
    assert_eq!(toks[1].value, TokenValue::Dot);
    assert_eq!(toks[2].value, TokenValue::Eof);
}

#[test]
fn keyword_prefix_is_an_identifier() {
    let (toks, d) = scan("classify");
    assert!(!d.had_error());
    assert_eq!(toks.len(), 2);
    assert_eq!(toks[0].value, TokenValue::Identifier("classify"));
    assert_eq!(toks[0].lexeme, "classify");
}

#[test]
fn exact_keyword_spelling_is_a_keyword() {
    let (toks, d) = scan("class");
    assert!(!d.had_error());
    assert_eq!(toks.len(), 2);
    assert_eq!(toks[0].value, TokenValue::Class);
    assert_eq!(toks[0].lexeme, "class");
}

#[test]
fn all_keywords_are_recognised() {
    let source = "and class else false fun for if nil or print return super this true var while";
    let (toks, d) = scan(source);
    assert!(!d.had_error());
    let expected = [
        TokenValue::And,
        TokenValue::Class,
        TokenValue::Else,
        TokenValue::False,
        TokenValue::Fun,
        TokenValue::For,
        TokenValue::If,
        TokenValue::Nil,
        TokenValue::Or,
        TokenValue::Print,
        TokenValue::Return,
        TokenValue::Super,
        TokenValue::This,
        TokenValue::True,
        TokenValue::Var,
        TokenValue::While,
    ];
    assert_eq!(toks.len(), expected.len() + 1);
    for (i, want) in expected.iter().enumerate() {
        assert_eq!(toks[i].value, *want);
    }
}

#[test]
fn keyword_lookup() {
    assert_eq!(keyword("and"), Some(TokenValue::And));
    assert_eq!(keyword("while"), Some(TokenValue::While));
    assert_eq!(keyword("andx"), None);
    assert_eq!(keyword(""), None);
    assert_eq!(keyword("Class"), None);
}

#[test]
fn newlines_advance_the_line_counter() {
    let (toks, d) = scan("(\n)\n\n*");
    assert!(!d.had_error());
    assert_eq!(toks.len(), 4);
    assert_eq!(toks[0].line, 1);
    assert_eq!(toks[1].line, 2);
    assert_eq!(toks[2].line, 4);
    assert_eq!(toks[3].line, 4);
}

#[test]
fn scanning_twice_gives_identical_sequences() {
    let source = "var x = 1.5; // note\nprint \"x\";";
    let mut d1 = Diagnostics::new();
    let mut s1 = Scanner::new(source);
    let t1 = s1.tokens(&mut d1);
    let mut d2 = Diagnostics::new();
    let mut s2 = Scanner::new(source);
    let t2 = s2.tokens(&mut d2);
    assert_eq!(t1, t2);
    assert_eq!(d1.len(), d2.len());
}

#[test]
fn engine_can_scan_again_after_reset() {
    let source = "fun f() { return nil; }";
    let mut s = Scanner::new(source);
    let mut d = Diagnostics::new();
    let first = s.tokens(&mut d);
    let second = s.tokens(&mut d);
    assert_eq!(first, second);
    assert!(!d.had_error());
}

#[test]
fn unexpected_character_is_reported_and_skipped() {
    let (toks, d) = scan("@(");
    assert!(d.had_error());
    assert_eq!(d.len(), 1);
    assert_eq!(d.get(0).message, "unexpected character");
    assert_eq!(d.get(0).line, 1);
    assert_eq!(toks.len(), 2);
    assert_eq!(toks[0].value, TokenValue::LeftParen);
    assert_eq!(toks[1].value, TokenValue::Eof);
}

#[test]
fn every_run_ends_with_exactly_one_eof() {
    for source in ["", "@@@", "\"open", "1 + 2", "// only a comment"] {
        let (toks, _) = scan(source);
        let eofs = toks
            .iter()
            .filter(|t| matches!(t.value, TokenValue::Eof))
            .count();
        assert_eq!(eofs, 1, "source {:?}", source);
        let last = toks.last().unwrap();
        assert_eq!(last.value, TokenValue::Eof);
        assert_eq!(last.lexeme, "");
    }
}

#[test]
fn multi_byte_characters_scan_safely() {
    let (toks, d) = scan("héllo 变量");
    assert!(!d.had_error());
    assert_eq!(toks.len(), 3);
    assert_eq!(toks[0].value, TokenValue::Identifier("héllo"));
    assert_eq!(toks[1].value, TokenValue::Identifier("变量"));
    assert_eq!(toks[2].value, TokenValue::Eof);
}

#[test]
fn multi_byte_characters_inside_strings() {
    let (toks, d) = scan("\"héllo 变量\"");
    assert!(!d.had_error());
    assert_eq!(toks.len(), 2);
    assert_eq!(toks[0].value, TokenValue::String("héllo 变量"));
}

#[test]
fn mixed_statement() {
    let (toks, d) = scan("var answer = 42;");
    assert!(!d.had_error());
    assert_eq!(toks.len(), 6);
    assert_eq!(toks[0].value, TokenValue::Var);
    assert_eq!(toks[1].value, TokenValue::Identifier("answer"));
    assert_eq!(toks[2].value, TokenValue::Equal);
    assert_eq!(number_value(&toks[3]), 42.0);
    assert_eq!(toks[4].value, TokenValue::Semicolon);
    assert_eq!(toks[5].value, TokenValue::Eof);
}

#[test]
fn error_had_error_and_reset_error() {
    let mut d = Diagnostics::new();
    assert!(!d.had_error());
    d.error(3, "boom");
    assert!(d.had_error());
    assert_eq!(d.len(), 1);
    assert_eq!(d.get(0).line, 3);
    assert_eq!(d.get(0).message, "boom");
    d.reset_error();
    assert!(!d.had_error());
    assert_eq!(d.len(), 0);
}

#[test]
fn token_new_keeps_its_fields() {
    let t = Token::new(TokenValue::Plus, "+", 7);
    assert_eq!(t.value, TokenValue::Plus);
    assert_eq!(t.lexeme, "+");
    assert_eq!(t.line, 7);
}

#[test]
fn diagnostics_accumulate_across_one_run() {
    let (toks, d) = scan("@\n#\n$");
    assert_eq!(d.len(), 3);
    assert_eq!(d.get(0).line, 1);
    assert_eq!(d.get(1).line, 2);
    assert_eq!(d.get(2).line, 3);
    assert_eq!(toks.len(), 1);
}
