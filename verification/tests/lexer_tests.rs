use lib::lexer::Lexer;
use lib::lexer_token::Token;
use lib::lexer_token::TokenType;

fn scan(source: &str) -> Vec<Token> {
    let mut lexer = Lexer::new(source.to_string());
    lexer.scan_tokens()
}

fn kinds(source: &str) -> Vec<TokenType> {
    scan(source).iter().map(|t| t.token).collect()
}

fn lexemes(source: &str) -> Vec<String> {
    scan(source).iter().map(|t| t.lexeme.clone()).collect()
}

#[test]
fn scans_single_and_double_character_tokens() {
    assert_eq!(
        kinds("(){},.-+;*/ ! != = == > >= < <="),
        vec![
            TokenType::LeftParen, TokenType::RightParen, TokenType::LeftBrace, TokenType::RightBrace, TokenType::Comma, TokenType::Dot, TokenType::Minus, TokenType::Plus, TokenType::Semicolon, TokenType::Star,
            TokenType::Slash, TokenType::Bang, TokenType::BangEqual, TokenType::Equal, TokenType::EqualEqual, TokenType::Greater, TokenType::GreaterEqual, TokenType::Less, TokenType::LessEqual, TokenType::Eof,
        ]
    );
}

#[test]
fn scans_keywords_and_identifiers() {
    assert_eq!(
        kinds("and or true false fun let for while if else return nil struct enum print _x y2"),
        vec![
            TokenType::And, TokenType::Or, TokenType::True, TokenType::False, TokenType::Fun, TokenType::Let, TokenType::For, TokenType::While, TokenType::If, TokenType::Else, TokenType::Return, TokenType::Nil, TokenType::Struct, TokenType::Enum,
            TokenType::Identifier, TokenType::Identifier, TokenType::Identifier, TokenType::Eof,
        ]
    );
    assert_eq!(lexemes("letter iffy")[..2], ["letter".to_string(), "iffy".to_string()]);
}

#[test]
fn scans_numbers_with_fraction() {
    let tokens = scan("12 3.25 7.");
    assert_eq!(tokens[0].lexeme, "12");
    assert_eq!(tokens[1].lexeme, "3.25");
    assert_eq!(tokens[2].lexeme, "7.");
    assert!(tokens[..3].iter().all(|t| t.token == TokenType::Number));
}

#[test]
fn scans_strings_without_quotes_and_counts_their_lines() {
    let tokens = scan("\"a\nb\" x");
    assert_eq!(tokens[0].token, TokenType::String);
    assert_eq!(tokens[0].lexeme, "a\nb");
    assert_eq!(tokens[0].line, 2);
    assert_eq!(tokens[1].lexeme, "x");
    assert_eq!(tokens[1].line, 2);
}

#[test]
fn skips_comments_and_whitespace() {
    let tokens = scan("// nothing here\n  x // trailing\n\ty");
    assert_eq!(tokens.len(), 3);
    assert_eq!(tokens[0].lexeme, "x");
    assert_eq!(tokens[0].line, 2);
    assert_eq!(tokens[1].lexeme, "y");
    assert_eq!(tokens[1].line, 3);
    assert_eq!(tokens[2].token, TokenType::Eof);
    assert_eq!(tokens[2].line, 3);
}

#[test]
fn ends_with_a_single_eof() {
    let tokens = scan("");
    assert_eq!(tokens.len(), 1);
    assert_eq!(tokens[0].token, TokenType::Eof);
    assert_eq!(tokens[0].lexeme, "");
    assert_eq!(tokens[0].line, 1);
}

#[test]
fn unterminated_string_rescans_last_character() {
    assert_eq!(kinds("\"ab"), vec![TokenType::Identifier, TokenType::Eof]);
    assert_eq!(lexemes("\"ab")[0], "b");
}

#[test]
fn stuck_lexer_reports_none() {
    let mut lexer = Lexer::new("x # y".to_string());
    assert!(lexer.try_scan_tokens().is_none());
    let mut lexer = Lexer::new("x = \"".to_string());
    assert!(lexer.try_scan_tokens().is_none());
}

#[test]
fn lines_never_decrease() {
    let tokens = scan("a\nb \"c\nd\" e\n\nf");
    for pair in tokens.windows(2) {
        assert!(pair[0].line <= pair[1].line);
    }
    assert_eq!(tokens.last().unwrap().line, 5);
}
