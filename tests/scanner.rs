use lox_scanner::scanner::scan;
use lox_scanner::token::TokenType;

fn number_value(t: &TokenType) -> f64 {
    match t {
        TokenType::Number(text) => text.parse::<f64>().unwrap(),
        other => panic!("not a number token: {:?}", other),
    }
}

fn text(s: &str) -> String {
    s.to_string()
}

#[test]
fn test_scan() {
    let source = "( ) { } , . - + ; * ! != = == > >= < <= identifier \"string\" 123.45 and class else false fun for if nil or print return super this true var while\n // comment\n 1/3";
    let scanner = scan(source);
    println!("{:?}", scanner.tokens);
    assert_eq!(scanner.tokens.len(), 41);
    assert_eq!(scanner.tokens[0], TokenType::LeftParen);
    assert_eq!(scanner.tokens[1], TokenType::RightParen);
    assert_eq!(scanner.tokens[2], TokenType::LeftBrace);
    assert_eq!(scanner.tokens[3], TokenType::RightBrace);
    assert_eq!(scanner.tokens[4], TokenType::Comma);
    assert_eq!(scanner.tokens[5], TokenType::Dot);
    assert_eq!(scanner.tokens[6], TokenType::Minus);
    assert_eq!(scanner.tokens[7], TokenType::Plus);
    assert_eq!(scanner.tokens[8], TokenType::Semicolon);
    assert_eq!(scanner.tokens[9], TokenType::Star);
    assert_eq!(scanner.tokens[10], TokenType::Bang);
    assert_eq!(scanner.tokens[11], TokenType::BangEqual);
    assert_eq!(scanner.tokens[12], TokenType::Equal);
    assert_eq!(scanner.tokens[13], TokenType::EqualEqual);
    assert_eq!(scanner.tokens[14], TokenType::Greater);
    assert_eq!(scanner.tokens[15], TokenType::GreaterEqual);
    assert_eq!(scanner.tokens[16], TokenType::Less);
    assert_eq!(scanner.tokens[17], TokenType::LessEqual);
    assert_eq!(scanner.tokens[18], TokenType::Identifier("identifier".to_string()));
    assert_eq!(scanner.tokens[19], TokenType::String("string".to_string()));
    assert_eq!(number_value(&scanner.tokens[20]), 123.45);
    assert_eq!(scanner.tokens[21], TokenType::And);
    assert_eq!(scanner.tokens[22], TokenType::Class);
    assert_eq!(scanner.tokens[23], TokenType::Else);
    assert_eq!(scanner.tokens[24], TokenType::False);
    assert_eq!(scanner.tokens[25], TokenType::Fun);
    assert_eq!(scanner.tokens[26], TokenType::For);
    assert_eq!(scanner.tokens[27], TokenType::If);
    assert_eq!(scanner.tokens[28], TokenType::Nil);
    assert_eq!(scanner.tokens[29], TokenType::Or);
    assert_eq!(scanner.tokens[30], TokenType::Print);
    assert_eq!(scanner.tokens[31], TokenType::Return);
    assert_eq!(scanner.tokens[32], TokenType::Super);
    assert_eq!(scanner.tokens[33], TokenType::This);
    assert_eq!(scanner.tokens[34], TokenType::True);
    assert_eq!(scanner.tokens[35], TokenType::Var);
    assert_eq!(scanner.tokens[36], TokenType::While);
    assert_eq!(number_value(&scanner.tokens[37]), 1.0);
    assert_eq!(scanner.tokens[38], TokenType::Slash);
    assert_eq!(number_value(&scanner.tokens[39]), 3.0);
    assert_eq!(scanner.tokens[40], TokenType::Eof);
}

#[test]
fn empty_input_is_only_eof() {
    let scanner = scan("");
    assert_eq!(scanner.tokens, vec![TokenType::Eof]);
    assert_eq!(scanner.line, 1);
}

#[test]
fn punctuation_gives_one_token_per_operator() {
    let scanner = scan("(){},.-+;*/!!====>>=<<=");
    assert_eq!(
        scanner.tokens,
        vec![
            TokenType::LeftParen,
            TokenType::RightParen,
            TokenType::LeftBrace,
            TokenType::RightBrace,
            TokenType::Comma,
            TokenType::Dot,
            TokenType::Minus,
            TokenType::Plus,
            TokenType::Semicolon,
            TokenType::Star,
            TokenType::Slash,
            TokenType::Bang,
            TokenType::BangEqual,
            TokenType::EqualEqual,
            TokenType::Equal,
            TokenType::Greater,
            TokenType::GreaterEqual,
            TokenType::Less,
            TokenType::LessEqual,
            TokenType::Eof,
        ]
    );
}

#[test]
fn words_that_are_not_keywords_are_identifiers() {
    for w in ["forest", "_under_score", "classy", "If", "x", "while_"] {
        let scanner = scan(w);
        assert_eq!(scanner.tokens, vec![TokenType::Identifier(text(w)), TokenType::Eof]);
    }
}

#[test]
fn identifier_may_hold_digits_after_first_char() {
    let scanner = scan("a1b2 9x");
    assert_eq!(
        scanner.tokens,
        vec![
            TokenType::Identifier(text("a1b2")),
            TokenType::Number(text("9")),
            TokenType::Identifier(text("x")),
            TokenType::Eof,
        ]
    );
}

#[test]
fn non_ascii_letters_form_identifiers() {
    let scanner = scan("été");
    assert_eq!(scanner.tokens, vec![TokenType::Identifier(text("été")), TokenType::Eof]);
}

#[test]
fn each_keyword_scans_to_its_token() {
    let table = [
        ("and", TokenType::And),
        ("class", TokenType::Class),
        ("else", TokenType::Else),
        ("false", TokenType::False),
        ("fun", TokenType::Fun),
        ("for", TokenType::For),
        ("if", TokenType::If),
        ("nil", TokenType::Nil),
        ("or", TokenType::Or),
        ("print", TokenType::Print),
        ("return", TokenType::Return),
        ("super", TokenType::Super),
        ("this", TokenType::This),
        ("true", TokenType::True),
        ("var", TokenType::Var),
        ("while", TokenType::While),
    ];
    for (w, t) in table {
        let scanner = scan(w);
        assert_eq!(scanner.tokens, vec![t, TokenType::Eof]);
    }
}

#[test]
fn integer_literal_scans_to_number() {
    let scanner = scan("1");
    assert_eq!(scanner.tokens, vec![TokenType::Number(text("1")), TokenType::Eof]);
    assert_eq!(number_value(&scanner.tokens[0]), 1.0);
}

#[test]
fn fractional_literal_scans_to_number() {
    let scanner = scan("123.45");
    assert_eq!(scanner.tokens, vec![TokenType::Number(text("123.45")), TokenType::Eof]);
    assert_eq!(number_value(&scanner.tokens[0]), 123.45);
}

#[test]
fn trailing_dot_at_end_is_an_error() {
    let scanner = scan("5.");
    assert_eq!(
        scanner.tokens,
        vec![TokenType::Error(text("Expected digit after '.'"))]
    );
}

#[test]
fn dot_before_non_digit_halts_the_scan() {
    let scanner = scan("(5.a + 1)");
    assert_eq!(
        scanner.tokens,
        vec![
            TokenType::LeftParen,
            TokenType::Error(text("Expected digit after '.'")),
        ]
    );
}

#[test]
fn two_dots_fail_to_parse() {
    let scanner = scan("1.2.3 x");
    assert_eq!(scanner.tokens, vec![TokenType::Error(text("Failed to parse number"))]);
}

#[test]
fn non_ascii_digits_fail_to_parse() {
    let scanner = scan("\u{663}");
    assert_eq!(scanner.tokens, vec![TokenType::Error(text("Failed to parse number"))]);
}

#[test]
fn leading_dot_is_punctuation() {
    let scanner = scan(".5");
    assert_eq!(
        scanner.tokens,
        vec![TokenType::Dot, TokenType::Number(text("5")), TokenType::Eof]
    );
}

#[test]
fn quoted_literal_excludes_quotes() {
    let scanner = scan("\"string\"");
    assert_eq!(scanner.tokens, vec![TokenType::String(text("string")), TokenType::Eof]);
}

#[test]
fn unterminated_string_holds_rest_of_input() {
    let scanner = scan("\"abc");
    assert_eq!(scanner.tokens, vec![TokenType::String(text("abc")), TokenType::Eof]);
}

#[test]
fn line_comment_emits_nothing_and_counts_its_newline() {
    let scanner = scan("// comment\n1");
    assert_eq!(scanner.tokens, vec![TokenType::Number(text("1")), TokenType::Eof]);
    assert_eq!(scanner.line, 2);
}

#[test]
fn comment_at_end_of_input() {
    let scanner = scan("a // no newline");
    assert_eq!(scanner.tokens, vec![TokenType::Identifier(text("a")), TokenType::Eof]);
    assert_eq!(scanner.line, 1);
}

#[test]
fn newlines_in_strings_are_counted() {
    let scanner = scan("a\n\"x\ny\"\n");
    assert_eq!(
        scanner.tokens,
        vec![
            TokenType::Identifier(text("a")),
            TokenType::String(text("x\ny")),
            TokenType::Eof,
        ]
    );
    assert_eq!(scanner.line, 4);
}

#[test]
fn error_line_is_where_scanning_stopped() {
    let scanner = scan("\n\n1.x\n");
    assert_eq!(scanner.tokens, vec![TokenType::Error(text("Expected digit after '.'"))]);
    assert_eq!(scanner.line, 3);
}

#[test]
fn unrecognized_character_is_an_error() {
    let scanner = scan("a @ b");
    assert_eq!(
        scanner.tokens,
        vec![
            TokenType::Identifier(text("a")),
            TokenType::Error(text("Unexpected character")),
        ]
    );
}

#[test]
fn rescanning_gives_identical_tokens() {
    let source = "var x = 1.5; // c\nprint \"hi\" != nil";
    let first = scan(source);
    let second = scan(source);
    assert_eq!(first.tokens, second.tokens);
    assert_eq!(first.line, second.line);
}

#[test]
fn comment_right_after_a_token_is_not_slashes() {
    let scanner = scan("a// one\n// two\nb");
    assert_eq!(
        scanner.tokens,
        vec![
            TokenType::Identifier(text("a")),
            TokenType::Identifier(text("b")),
            TokenType::Eof,
        ]
    );
    assert_eq!(scanner.line, 3);
}

#[test]
fn single_slash_between_numbers_is_division() {
    let scanner = scan("1/3");
    assert_eq!(
        scanner.tokens,
        vec![TokenType::Number(text("1")), TokenType::Slash, TokenType::Number(text("3")), TokenType::Eof]
    );
}

#[test]
fn error_is_last_and_has_no_eof_after_it() {
    let scanner = scan("x = 1 # y");
    assert_eq!(scanner.tokens.len(), 4);
    assert_eq!(scanner.tokens[3], TokenType::Error(text("Unexpected character")));
    assert!(!scanner.tokens.contains(&TokenType::Eof));
}

#[test]
fn non_ascii_digits_continue_an_identifier() {
    let scanner = scan("x\u{663}");
    assert_eq!(scanner.tokens, vec![TokenType::Identifier(text("x\u{663}")), TokenType::Eof]);
}

#[test]
fn comment_before_tokens_shifts_the_line_only() {
    let with_comment = scan("// note\n1 + 2");
    let without = scan("1 + 2");
    assert_eq!(with_comment.tokens, without.tokens);
    assert_eq!(with_comment.line, without.line + 1);
}
