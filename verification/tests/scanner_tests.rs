use lox::scanner::{Scanner, TokenType};

fn assert_next_token(scanner: &mut Scanner, token_type: TokenType) {
    let token = scanner.scan_token();
    assert_eq!(token.token_type, token_type, "token: {:?}", token);
}

fn assert_token(source: &str, token_type: TokenType) {
    let mut scanner = Scanner::new(source);
    assert_next_token(&mut scanner, token_type);
}

#[test]
fn it_scans_eof() {
    let mut scanner = Scanner::new("");
    assert_next_token(&mut scanner, TokenType::EOF);
}

#[test]
fn it_scans_single_character_tokens() {
    let mut scanner = Scanner::new("(){},.+;*");

    assert_next_token(&mut scanner, TokenType::LeftParen);
    assert_next_token(&mut scanner, TokenType::RightParen);
    assert_next_token(&mut scanner, TokenType::LeftBrace);
    assert_next_token(&mut scanner, TokenType::RightBrace);
    assert_next_token(&mut scanner, TokenType::Comma);
    assert_next_token(&mut scanner, TokenType::Dot);
    assert_next_token(&mut scanner, TokenType::Plus);
    assert_next_token(&mut scanner, TokenType::Semicolon);
    assert_next_token(&mut scanner, TokenType::Star);
    assert_next_token(&mut scanner, TokenType::EOF);
}

#[test]
fn it_scans_one_or_two_character_tokens() {
    let mut scanner = Scanner::new("!!====<<=>>=");

    assert_next_token(&mut scanner, TokenType::Bang);
    assert_next_token(&mut scanner, TokenType::BangEqual);
    assert_next_token(&mut scanner, TokenType::EqualEqual);
    assert_next_token(&mut scanner, TokenType::Equal);
    assert_next_token(&mut scanner, TokenType::Less);
    assert_next_token(&mut scanner, TokenType::LessEqual);
    assert_next_token(&mut scanner, TokenType::Greater);
    assert_next_token(&mut scanner, TokenType::GreaterEqual);
    assert_next_token(&mut scanner, TokenType::EOF);
}

#[test]
fn it_skips_whitespace() {
    let mut scanner = Scanner::new("      ");
    assert_next_token(&mut scanner, TokenType::EOF);
}

#[test]
fn it_can_scan_slash() {
    let mut scanner = Scanner::new("/");

    assert_next_token(&mut scanner, TokenType::Slash);
    assert_next_token(&mut scanner, TokenType::EOF);
}

#[test]
fn it_can_scan_comments() {
    let mut scanner = Scanner::new("// this is a comment");

    assert_next_token(&mut scanner, TokenType::EOF);
}

#[test]
fn it_can_scan_strings() {
    let mut scanner = Scanner::new("\"I am a string\"");

    let token = scanner.scan_token();

    assert_eq!(
        token.token_type,
        TokenType::String(String::from("I am a string"))
    );

    assert_next_token(&mut scanner, TokenType::EOF);
}

#[test]
fn it_can_scan_ints() {
    let mut scanner = Scanner::new("1234");

    let token = scanner.scan_token();

    assert_eq!(token.token_type, TokenType::Number(1234.0f64.to_bits()));
}

#[test]
fn it_can_scan_floats() {
    let mut scanner = Scanner::new("12.34");

    let token = scanner.scan_token();

    assert_eq!(token.token_type, TokenType::Number(12.34f64.to_bits()));
}

#[test]
fn it_can_scan_identifiers() {
    let mut scanner = Scanner::new("foo_bar");

    let token = scanner.scan_token();

    assert_eq!(
        token.token_type,
        TokenType::Identifier(String::from("foo_bar"))
    );
}

#[test]
fn it_can_scan_reserved_keywords() {
    assert_token("and", TokenType::And);
    assert_token("class", TokenType::Class);
    assert_token("else", TokenType::Else);
    assert_token("false", TokenType::False);
    assert_token("for", TokenType::For);
    assert_token("fun", TokenType::Fun);
    assert_token("if", TokenType::If);
    assert_token("nil", TokenType::Nil);
    assert_token("or", TokenType::Or);
    assert_token("print", TokenType::Print);
    assert_token("return", TokenType::Return);
    assert_token("super", TokenType::Super);
    assert_token("this", TokenType::This);
    assert_token("var", TokenType::Var);
    assert_token("while", TokenType::While);
}

#[test]
fn it_can_scan_true_keyword() {
    assert_token("true", TokenType::True);
    assert_token("truthy", TokenType::Identifier(String::from("truthy")));
}

#[test]
fn it_can_scan_expression() {
    let mut scanner = Scanner::new("print 1 + 2;");

    assert_next_token(&mut scanner, TokenType::Print);
    assert_next_token(&mut scanner, TokenType::Number(1.0f64.to_bits()));
    assert_next_token(&mut scanner, TokenType::Plus);
    assert_next_token(&mut scanner, TokenType::Number(2.0f64.to_bits()));
    assert_next_token(&mut scanner, TokenType::Semicolon);
    assert_next_token(&mut scanner, TokenType::EOF);
}

#[test]
fn unterminated_string_is_an_error() {
    let mut scanner = Scanner::new("\"abc");
    let token = scanner.scan_token();
    assert_eq!(
        token.token_type,
        TokenType::Error(String::from("Unterminated string."))
    );
}

#[test]
fn unexpected_character_is_an_error() {
    let mut scanner = Scanner::new("#");
    let token = scanner.scan_token();
    assert_eq!(
        token.token_type,
        TokenType::Error(String::from("Unexpected character."))
    );
}

#[test]
fn newlines_count_lines() {
    let mut scanner = Scanner::new("1\n2");
    let one = scanner.scan_token();
    assert_eq!(one.line, 1);
    let two = scanner.scan_token();
    assert_eq!(two.line, 2);
}
