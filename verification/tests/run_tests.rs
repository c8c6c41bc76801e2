use rlox_core::chunk::{Chunk, LineTrait, Op};
use rlox_core::compiler::{Parser, SyntaxTrait};
use rlox_core::lexer::{Scanner, TokenType};
use rlox_core::run::{compile, interpret};
use rlox_core::vm::InterpretResult;

#[test]
fn test_compile_empty_source_emits_return() {
    let mut chk = Chunk::new();
    let ok = compile("", &mut chk);
    assert!(ok);
    assert_eq!(chk.code, vec![Op::Return]);
    assert_eq!(chk.get_line(0), 0);
}

#[test]
fn test_compile_rejects_leftover_tokens() {
    let mut chk = Chunk::new();
    let ok = compile("1 + 2", &mut chk);
    assert!(!ok);
    assert_eq!(chk.count, 0);
}

#[test]
fn test_compile_rejects_lexical_error() {
    let mut chk = Chunk::new();
    let ok = compile("#", &mut chk);
    assert!(!ok);
    assert_eq!(chk.count, 0);
}

#[test]
fn test_interpret_source_results() {
    // a clean (empty) parse emits only Return, whose run underflows
    assert_eq!(interpret(""), InterpretResult::RuntimeError);
    // leftover tokens are a compile error, reported before the machine runs
    assert_eq!(interpret("1 + 2"), InterpretResult::CompileError);
    assert_eq!(interpret("#"), InterpretResult::CompileError);
}

#[test]
fn test_parser_advance_and_tokens() {
    let scanner = Scanner::new("foo bar");
    let mut parser = Parser::new(scanner);
    parser.advance();
    assert_eq!(parser.curr_token().tt, TokenType::Identifier);
    assert_eq!(parser.curr_token().value, "foo");
    parser.advance();
    assert_eq!(parser.prev_token().value, "foo");
    assert_eq!(parser.curr_token().value, "bar");
    assert!(!parser.had_error);
}

#[test]
fn test_parser_consume_mismatch_records_issue() {
    let scanner = Scanner::new("42");
    let mut parser = Parser::new(scanner);
    parser.advance();
    parser.expression();
    parser.consume(TokenType::Eof, "Expect end of expression.");
    assert!(parser.had_error);
    assert_eq!(parser.issues.len(), 1);
    assert_eq!(parser.issues[0].message, "Expect end of expression.");
    assert_eq!(parser.issues[0].token_text, "42");
    assert_eq!(parser.issues[0].line, 0);
}

#[test]
fn test_parser_lexical_error_reported_once() {
    let scanner = Scanner::new("# #");
    let mut parser = Parser::new(scanner);
    parser.advance();
    assert!(parser.had_error);
    assert_eq!(parser.issues.len(), 1);
    assert_eq!(parser.issues[0].message, "Unexpected token.");
    // the parser is panicking: further errors are swallowed
    parser.advance();
    assert_eq!(parser.issues.len(), 1);
}
