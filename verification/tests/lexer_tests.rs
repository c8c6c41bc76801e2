use rlox_core::lexer::{Scanner, TokenType};

fn token_kinds(source: &str) -> Vec<TokenType> {
    let mut scanner = Scanner::new(source);
    let mut kinds = Vec::new();
    loop {
        let t = scanner.next();
        let tt = t.tt;
        kinds.push(tt);
        if tt == TokenType::Eof || tt == TokenType::Error {
            return kinds;
        }
    }
}

#[test]
fn it_works() {
    assert_eq!(true, true);
}

#[test]
fn test_single_character_tokens() {
    let kinds = token_kinds("(){};,.-+/*");
    assert_eq!(
        kinds,
        vec![
            TokenType::LeftParen,
            TokenType::RightParen,
            TokenType::LeftBrace,
            TokenType::RightBrace,
            TokenType::Semicolon,
            TokenType::Comma,
            TokenType::Dot,
            TokenType::Minus,
            TokenType::Plus,
            TokenType::Slash,
            TokenType::Star,
            TokenType::Eof,
        ]
    );
}

#[test]
fn test_one_or_two_character_tokens() {
    let kinds = token_kinds("! != = == < <= > >=");
    assert_eq!(
        kinds,
        vec![
            TokenType::Bang,
            TokenType::BangEqual,
            TokenType::Equal,
            TokenType::EqualEqual,
            TokenType::Less,
            TokenType::LessEqual,
            TokenType::Greater,
            TokenType::GreaterEqual,
            TokenType::Eof,
        ]
    );
}

#[test]
fn test_number_token() {
    let mut scanner = Scanner::new("12.5 7 3.x");
    let t = scanner.next();
    assert_eq!(t.tt, TokenType::Number);
    assert_eq!(t.value, "12.5");
    let t2 = scanner.next();
    assert_eq!(t2.tt, TokenType::Number);
    assert_eq!(t2.value, "7");
    // a dot not followed by a digit is not part of the number
    let t3 = scanner.next();
    assert_eq!(t3.tt, TokenType::Number);
    assert_eq!(t3.value, "3");
    assert_eq!(scanner.next().tt, TokenType::Dot);
    assert_eq!(scanner.next().tt, TokenType::Identifier);
}

#[test]
fn test_identifiers_and_keywords() {
    let mut scanner = Scanner::new("foo and classy class _x9 while");
    let t = scanner.next();
    assert_eq!(t.tt, TokenType::Identifier);
    assert_eq!(t.value, "foo");
    assert_eq!(scanner.next().tt, TokenType::And);
    let t3 = scanner.next();
    assert_eq!(t3.tt, TokenType::Identifier);
    assert_eq!(t3.value, "classy");
    assert_eq!(scanner.next().tt, TokenType::Class);
    let t5 = scanner.next();
    assert_eq!(t5.tt, TokenType::Identifier);
    assert_eq!(t5.value, "_x9");
    assert_eq!(scanner.next().tt, TokenType::While);
    assert_eq!(scanner.next().tt, TokenType::Eof);
}

#[test]
fn test_string_token() {
    let mut scanner = Scanner::new("\"hello there\" 1");
    let t = scanner.next();
    assert_eq!(t.tt, TokenType::Str);
    assert_eq!(t.value, "hello there");
    assert_eq!(scanner.next().tt, TokenType::Number);
}

#[test]
fn test_unterminated_string() {
    let mut scanner = Scanner::new("\"oops");
    let t = scanner.next();
    assert_eq!(t.tt, TokenType::Error);
    assert_eq!(t.value, "Unterminated string");
}

#[test]
fn test_lines_and_comments() {
    let mut scanner = Scanner::new("foo\n// a comment\nbar\r\n baz");
    let t1 = scanner.next();
    assert_eq!((t1.tt, t1.line), (TokenType::Identifier, 0));
    let t2 = scanner.next();
    assert_eq!((t2.tt, t2.line), (TokenType::Identifier, 2));
    assert_eq!(t2.value, "bar");
    let t3 = scanner.next();
    assert_eq!((t3.tt, t3.line), (TokenType::Identifier, 3));
    assert_eq!(t3.value, "baz");
    assert_eq!(scanner.next().tt, TokenType::Eof);
}

#[test]
fn test_unknown_character() {
    let mut scanner = Scanner::new("#");
    let t = scanner.next();
    assert_eq!(t.tt, TokenType::Error);
    assert_eq!(t.value, "UNK");
}

#[test]
fn test_eof_token() {
    let mut scanner = Scanner::new("   \t ");
    let t = scanner.next();
    assert_eq!(t.tt, TokenType::Eof);
    assert_eq!(t.value, "EOF");
}

#[test]
fn test_default_scanner() {
    let mut scanner = Scanner::default();
    assert_eq!(scanner.next().tt, TokenType::Eof);
}
