use pycom_wrap::lex::{
    is_digit_of_radix, is_identifier_or_keyword_continuation, is_identifier_or_keywords_start,
    LexResult, LexicalErrorType, Lexer,
};
use pycom_wrap::string_parsing::exponent_parts;
use pycom_wrap::text_range::TextRange;
use pycom_wrap::text_size::TextSize;
use pycom_wrap::token::{StringKind, Token};

fn lexer_for(source: &str) -> Lexer {
    Lexer::new(source.chars().collect())
}

/// Every result of the lexer up to the end of the source.
fn lex_results(source: &str) -> Vec<LexResult> {
    let mut lexer = lexer_for(source);
    let mut results = Vec::new();
    loop {
        match lexer.try_next() {
            Some(Some(r)) => results.push(r),
            Some(None) => return results,
            None => panic!("the lexer would not come back"),
        }
    }
}

/// The tokens of a source that lexes without error.
fn lex_source(source: &str) -> Vec<Token> {
    lex_results(source)
        .into_iter()
        .map(|r| r.unwrap().0)
        .collect()
}

fn range(start: u32, end: u32) -> TextRange {
    TextRange::new(TextSize::new(start), TextSize::new(end))
}

/// The value of a float literal's text, read as the lexer's float reading reads it.
fn float_value(text: &str) -> f64 {
    match exponent_parts(text) {
        Ok((coefficient, sign, exponent)) => {
            let coefficient: f64 = coefficient.parse().unwrap();
            let exponent: f64 = exponent.parse().unwrap();
            if sign {
                coefficient * 10f64.powf(exponent)
            } else {
                coefficient / 10f64.powf(exponent)
            }
        }
        Err(_) => <f64 as num_traits::Num>::from_str_radix(text, 10).unwrap(),
    }
}

fn imag_value(text: &str) -> f64 {
    <f64 as num_traits::Num>::from_str_radix(text, 10).unwrap()
}

fn assert_float(token: &Token, expected: f64) {
    match token {
        Token::Float { value } => assert_eq!(float_value(value), expected),
        other => panic!("expected a float, got {:?}", other),
    }
}

fn assert_complex(token: &Token, expected_imag: f64) {
    match token {
        Token::Complex { imag } => assert_eq!(imag_value(imag), expected_imag),
        other => panic!("expected a complex number, got {:?}", other),
    }
}

#[test]
fn test_numbers() {
    let source = "0x2f 0o12 0b1101 0 123 123_45_67_890 0.2 1e+2 2.1e3 2j 2.2j";
    let tokens = lex_source(source);
    assert_eq!(tokens.len(), 12);
    assert_eq!(tokens[0], Token::Int { value: 47 });
    assert_eq!(tokens[1], Token::Int { value: 10 });
    assert_eq!(tokens[2], Token::Int { value: 13 });
    assert_eq!(tokens[3], Token::Int { value: 0 });
    assert_eq!(tokens[4], Token::Int { value: 123 });
    assert_eq!(tokens[5], Token::Int { value: 1234567890 });
    assert_float(&tokens[6], 0.2);
    assert_float(&tokens[7], 100.0);
    assert_float(&tokens[8], 2100.0);
    assert_complex(&tokens[9], 2.0);
    assert_complex(&tokens[10], 2.2);
    assert_eq!(tokens[11], Token::Newline);
}

#[test]
fn assignment_tokens_and_ranges() {
    let results = lex_results("x = 1\n");
    let spans: Vec<(Token, TextRange)> = results.into_iter().map(|r| r.unwrap()).collect();
    assert_eq!(
        spans,
        vec![
            (Token::Name { name: "x".to_owned() }, range(3, 4)),
            (Token::Equal, range(5, 6)),
            (Token::Int { value: 1 }, range(6, 6)),
            (Token::Newline, range(6, 6)),
        ]
    );
}

#[test]
fn indented_block_gives_indent_and_dedent() {
    let results = lex_results("if x:\n    pass\n");
    let spans: Vec<(Token, TextRange)> = results.into_iter().map(|r| r.unwrap()).collect();
    assert_eq!(
        spans,
        vec![
            (Token::If, range(3, 5)),
            (Token::Name { name: "x".to_owned() }, range(6, 7)),
            (Token::Colon, range(7, 8)),
            (Token::Newline, range(8, 9)),
            (Token::Indent, range(9, 13)),
            (Token::Pass, range(13, 15)),
            (Token::Newline, range(15, 15)),
            (Token::Dedent, range(15, 15)),
        ]
    );
}

#[test]
fn trailing_comment_and_final_newline() {
    let results = lex_results("x # c");
    let spans: Vec<(Token, TextRange)> = results.into_iter().map(|r| r.unwrap()).collect();
    assert_eq!(
        spans,
        vec![
            (Token::Name { name: "x".to_owned() }, range(3, 4)),
            (Token::Comment("# c".to_owned()), range(5, 5)),
            (Token::Newline, range(5, 5)),
        ]
    );
}

#[test]
fn comment_line_gives_non_logical_newline() {
    let tokens = lex_source("# hi\n");
    assert_eq!(tokens, vec![Token::NonLogicalNewline]);
}

#[test]
fn empty_string_literal() {
    let results = lex_results("''");
    let spans: Vec<(Token, TextRange)> = results.into_iter().map(|r| r.unwrap()).collect();
    assert_eq!(
        spans,
        vec![
            (
                Token::String { value: String::new(), kind: StringKind::String, triple_quoted: false },
                range(2, 2),
            ),
            (Token::Newline, range(2, 2)),
        ]
    );
}

#[test]
fn string_with_plain_characters() {
    let results = lex_results("'abc'\n");
    let spans: Vec<(Token, TextRange)> = results.into_iter().map(|r| r.unwrap()).collect();
    assert_eq!(
        spans,
        vec![
            (
                Token::String { value: "abc".to_owned(), kind: StringKind::String, triple_quoted: false },
                range(3, 6),
            ),
            (Token::Newline, range(6, 6)),
        ]
    );
}

fn first_error(source: &str) -> LexicalErrorType {
    let mut lexer = lexer_for(source);
    loop {
        match lexer.try_next() {
            Some(Some(Ok(_))) => {}
            Some(Some(Err(e))) => return e.error,
            _ => panic!("expected a lexical error"),
        }
    }
}

#[test]
fn unterminated_strings_are_errors() {
    assert_eq!(
        first_error("'ab\ncd'"),
        LexicalErrorType::OtherError("EOL while scanning string literal".to_owned())
    );
    assert_eq!(first_error("'abc"), LexicalErrorType::StringError);
    assert_eq!(first_error("\'\'\'abc"), LexicalErrorType::Eof);
}

fn str_tok(s: &str) -> Token {
    Token::String { value: s.to_owned(), kind: StringKind::String, triple_quoted: false }
}

fn raw_str_tok(s: &str) -> Token {
    Token::String { value: s.to_owned(), kind: StringKind::RawString, triple_quoted: false }
}

const WINDOWS_EOL: &str = "\r\n";
const MAC_EOL: &str = "\r";
const UNIX_EOL: &str = "\n";

fn line_comment(eol: &str) {
    let source = format!(r"99232  # {}", eol);
    let tokens = lex_source(&source);
    assert_eq!(
        tokens,
        vec![Token::Int { value: 99232 }, Token::Comment(format!("# {}", eol)), Token::Newline]
    );
}

#[test]
fn test_line_comment_long() {
    line_comment(" foo");
}

#[test]
fn test_line_comment_whitespace() {
    line_comment("  ");
}

#[test]
fn test_line_comment_single_whitespace() {
    line_comment(" ");
}

#[test]
fn test_line_comment_empty() {
    line_comment("");
}

fn comment_until_eol(eol: &str) {
    let source = format!("123  # Foo{}456", eol);
    let tokens = lex_source(&source);
    assert_eq!(
        tokens,
        vec![
            Token::Int { value: 123 },
            Token::Comment("# Foo".to_string()),
            Token::Newline,
            Token::Int { value: 456 },
            Token::Newline,
        ]
    )
}

#[test]
fn test_comment_until_windows_eol() {
    comment_until_eol(WINDOWS_EOL);
}

#[test]
fn test_comment_until_mac_eol() {
    comment_until_eol(MAC_EOL);
}

#[test]
fn test_comment_until_unix_eol() {
    comment_until_eol(UNIX_EOL);
}

/// The first token or error of a source.
fn first_result(source: &str) -> LexResult {
    lexer_for(source).try_next().unwrap().unwrap()
}

#[test]
fn escaped_quote_closes_the_string() {
    let (token, r) = first_result(r"'can\'t'").unwrap();
    assert_eq!(token, str_tok(r"can\'"));
    assert_eq!(r, range(3, 8));
    let (token, _) = first_result(r#""\"""#).unwrap();
    assert_eq!(token, str_tok(r#"\""#));
}

#[test]
fn escaped_backslashes_are_read_again() {
    let (token, _) = first_result(r#""\\\"""#).unwrap();
    assert_eq!(token, str_tok(r#"\\\\\""#));
}

#[test]
fn escaped_line_break_ends_a_one_quote_string() {
    assert_eq!(
        first_error("\"abc\\\ndef\""),
        LexicalErrorType::OtherError("EOL while scanning string literal".to_owned())
    );
}

#[test]
fn escaped_plain_characters_are_kept() {
    let tokens = lex_source(r"'\t\r\n' '\g' r'raw\z' '\420' '\200\0a'");
    assert_eq!(
        tokens,
        vec![
            str_tok(r"\t\r\n"),
            str_tok(r"\g"),
            raw_str_tok(r"raw\z"),
            str_tok(r"\420"),
            str_tok(r"\200\0a"),
            Token::Newline,
        ]
    );
}

#[test]
fn test_escape_unicode_name() {
    let source = r#""\N{EN SPACE}""#;
    let tokens = lex_source(source);
    assert_eq!(tokens, vec![str_tok(r"\N{EN SPACE}"), Token::Newline])
}

fn triple_quoted(eol: &str) {
    let source = format!("\"\"\"{0} test string{0} \"\"\"", eol);
    let tokens = lex_source(&source);
    assert_eq!(
        tokens,
        vec![
            Token::String {
                value: "\n test string\n ".to_owned(),
                kind: StringKind::String,
                triple_quoted: true,
            },
            Token::Newline,
        ]
    )
}

#[test]
fn test_triple_quoted_windows_eol() {
    triple_quoted(WINDOWS_EOL);
}

#[test]
fn test_triple_quoted_unix_eol() {
    triple_quoted(UNIX_EOL);
}

#[test]
fn triple_quoted_string_closes_at_one_quote() {
    let (token, r) = first_result("\"\"\"\"xy").unwrap();
    assert_eq!(
        token,
        Token::String { value: String::new(), kind: StringKind::String, triple_quoted: true }
    );
    assert_eq!(r, range(3, 6));
    let tokens = lex_source("'''a'b'''\n");
    assert_eq!(
        tokens,
        vec![
            Token::String { value: "a".to_owned(), kind: StringKind::String, triple_quoted: true },
            str_tok(""),
            Token::Newline,
        ]
    );
}

#[test]
fn cursor_never_goes_back_and_ends_at_the_source_length() {
    let source = "if a:\n    s = 'x # y'  # note\n";
    let mut lexer = lexer_for(source);
    let mut previous = lexer.char_cursor();
    loop {
        match lexer.try_next() {
            Some(Some(_)) => {
                let cursor = lexer.char_cursor();
                assert!(previous <= cursor);
                previous = cursor;
            }
            Some(None) => break,
            None => panic!("the lexer would not come back"),
        }
    }
    assert_eq!(lexer.current_char(), None);
    assert_eq!(lexer.char_cursor().to_u32(), source.len() as u32);
}

#[test]
fn leading_zero_is_an_error() {
    let results = lex_results("0123");
    let error = results.into_iter().next().unwrap().unwrap_err();
    assert_eq!(
        error.error,
        LexicalErrorType::OtherError("An integer can't have a leading 0".to_owned())
    );
    assert_eq!(error.location, TextSize::new(4));
}

#[test]
fn unknown_character_is_an_error() {
    let mut lexer = lexer_for("$");
    let error = lexer.try_next().unwrap().unwrap().unwrap_err();
    assert_eq!(error.error, LexicalErrorType::UnrecognizedToken { tok: '$' });
    assert_eq!(error.location, TextSize::new(1));
}

#[test]
fn operators_take_the_longest_match() {
    let tokens = lex_source("a **= b // c\n");
    assert_eq!(
        tokens,
        vec![
            Token::Name { name: "a".to_owned() },
            Token::DoubleStarEqual,
            Token::Name { name: "b".to_owned() },
            Token::DoubleSlash,
            Token::Name { name: "c".to_owned() },
            Token::Newline,
        ]
    );
}

#[test]
fn empty_source_has_no_tokens() {
    assert!(lex_source("").is_empty());
}

#[test]
fn window_shows_three_characters() {
    let lexer = lexer_for("ab");
    assert_eq!(lexer.window(), [Some('a'), Some('b'), None]);
    assert_eq!(lexer.char_cursor(), TextSize::new(2));
}

#[test]
fn jumping_moves_the_cursor() {
    let mut lexer = lexer_for("abcdef");
    let cursor = lexer.jump_forward_n_chars(2);
    assert_eq!(cursor, TextSize::new(5));
    assert_eq!(lexer.current_char(), Some('c'));
}

#[test]
fn digits_of_each_radix() {
    assert!(is_digit_of_radix('1', 2));
    assert!(!is_digit_of_radix('2', 2));
    assert!(is_digit_of_radix('8', 8));
    assert!(!is_digit_of_radix('9', 8));
    assert!(is_digit_of_radix('9', 10));
    assert!(!is_digit_of_radix('a', 10));
    assert!(is_digit_of_radix('F', 16));
    assert!(!is_digit_of_radix('g', 16));
}

#[test]
fn identifier_characters() {
    assert!(is_identifier_or_keywords_start('_'));
    assert!(is_identifier_or_keywords_start('é'));
    assert!(!is_identifier_or_keywords_start('1'));
    assert!(is_identifier_or_keyword_continuation('1'));
    assert!(!is_identifier_or_keyword_continuation('-'));
}

#[test]
fn keywords_are_recognised() {
    let chars: Vec<char> = "while".chars().collect();
    assert_eq!(Token::try_get_keyword(&chars), Some(Token::While));
    let chars: Vec<char> = "None".chars().collect();
    assert_eq!(Token::try_get_keyword(&chars), Some(Token::NoneKeyword));
    let chars: Vec<char> = "whale".chars().collect();
    assert_eq!(Token::try_get_keyword(&chars), None);
}

#[test]
fn every_token_range_lies_in_the_source() {
    let sources = [
        "def f(a, b):\n    return a ** b  # power\n",
        "x = [1, 2.5, 3j]\nif x:\n\tpass\n",
        "é = 0x1F + 0o7 - 0b1\n",
        "while True:\n    y <<= 2\n    break\n",
    ];
    for source in sources.iter() {
        let length = source.len() as u32;
        for result in lex_results(source) {
            let (_, r) = result.unwrap();
            assert!(r.start() <= r.end(), "{:?} runs backwards in {:?}", r, source);
            assert!(r.end().to_u32() <= length, "{:?} ends past {:?}", r, source);
        }
    }
}

#[test]
fn emoji_is_a_name() {
    let tokens = lex_source("😀");
    assert_eq!(tokens, vec![Token::Name { name: "😀".to_owned() }, Token::Newline]);
}

#[test]
fn checked_steps_give_what_the_steps_give() {
    let mut lexer = lexer_for("'abc'");
    let (token, _) = lexer.checked_lex_string(StringKind::String).unwrap().unwrap();
    assert_eq!(
        token,
        Token::String { value: "abc".to_owned(), kind: StringKind::String, triple_quoted: false }
    );
    let mut lexer = lexer_for("+= 1");
    let (token, _) = lexer.checked_lex_next().unwrap().unwrap();
    assert_eq!(token, Token::PlusEqual);
    let mut lexer = lexer_for("12");
    assert_eq!(lexer.checked_lex_number().unwrap().unwrap().0, Token::Int { value: 12 });
    let mut lexer = lexer_for("b'x'");
    let (token, _) = lexer.checked_try_lex_tagged_string().unwrap().unwrap().unwrap();
    assert_eq!(token, Token::String { value: "x".to_owned(), kind: StringKind::Bytes, triple_quoted: false });
    let mut lexer = lexer_for("rb''");
    let (token, _) = lexer.checked_try_lex_tagged_string().unwrap().unwrap().unwrap();
    assert_eq!(
        token,
        Token::String { value: String::new(), kind: StringKind::RawBytes, triple_quoted: false }
    );
}

#[test]
fn brackets_change_the_nesting() {
    let tokens = lex_source("(a,\nb)\n");
    assert_eq!(
        tokens,
        vec![
            Token::Lpar,
            Token::Name { name: "a".to_owned() },
            Token::Comma,
            Token::NonLogicalNewline,
            Token::Name { name: "b".to_owned() },
            Token::Rpar,
            Token::Newline,
        ]
    );
    assert_eq!(first_error(")"), LexicalErrorType::NestingError);
}
